use vstd::prelude::*;

use itertools::Itertools;

verus! {

/// Folds a sequence of (schema id, record id) pairs into groups: consecutive
/// pairs sharing a schema id form one group, keyed by that id and listing
/// the record ids in order. A schema id that recurs after a different one
/// starts a new group.
pub open spec fn group_runs(pairs: Seq<(u64, u64)>) -> Seq<(u64, Seq<u64>)>
    decreases pairs.len(),
{
    if pairs.len() == 0 {
        Seq::empty()
    } else {
        let rest = group_runs(pairs.drop_first());
        let k = pairs[0].0;
        let v = pairs[0].1;
        if rest.len() > 0 && rest[0].0 == k {
            seq![(k, seq![v] + rest[0].1)] + rest.drop_first()
        } else {
            seq![(k, seq![v])] + rest
        }
    }
}

/// The pairs one group stands for: its key beside each of its members.
pub open spec fn keyed(k: u64, rids: Seq<u64>) -> Seq<(u64, u64)> {
    Seq::new(rids.len(), |i: int| (k, rids[i]))
}

/// All pairs a sequence of groups stands for, in order.
pub open spec fn flatten_groups(groups: Seq<(u64, Seq<u64>)>) -> Seq<(u64, u64)>
    decreases groups.len(),
{
    if groups.len() == 0 {
        Seq::empty()
    } else {
        keyed(groups[0].0, groups[0].1) + flatten_groups(groups.drop_first())
    }
}

/// Grouping by runs loses, duplicates and reorders nothing: expanding each
/// group back into its pairs gives back the input exactly.
pub proof fn lemma_group_runs_flatten(pairs: Seq<(u64, u64)>)
    ensures
        flatten_groups(group_runs(pairs)) == pairs,
    decreases pairs.len(),
{
    if pairs.len() == 0 {
        assert(flatten_groups(group_runs(pairs)) =~= pairs);
    } else {
        lemma_group_runs_flatten(pairs.drop_first());
        let rest = group_runs(pairs.drop_first());
        let k = pairs[0].0;
        let v = pairs[0].1;
        if rest.len() > 0 && rest[0].0 == k {
            let g = (k, seq![v] + rest[0].1);
            let gs = seq![g] + rest.drop_first();
            assert(group_runs(pairs) == gs);
            assert(gs.drop_first() =~= rest.drop_first());
            assert(keyed(g.0, g.1) =~= seq![(k, v)] + keyed(rest[0].0, rest[0].1));
            assert(flatten_groups(rest) == keyed(rest[0].0, rest[0].1) + flatten_groups(
                rest.drop_first(),
            ));
            assert(flatten_groups(gs) =~= seq![(k, v)] + flatten_groups(rest));
            assert(seq![(k, v)] + pairs.drop_first() =~= pairs);
        } else {
            let gs = seq![(k, seq![v])] + rest;
            assert(group_runs(pairs) == gs);
            assert(gs.drop_first() =~= rest);
            assert(keyed(k, seq![v]) =~= seq![(k, v)]);
            assert(flatten_groups(gs) =~= seq![(k, v)] + flatten_groups(rest));
            assert(seq![(k, v)] + pairs.drop_first() =~= pairs);
        }
    }
}

/// Relies on `itertools::Itertools::chunk_by`: consecutive elements mapped
/// to the same key are assigned to the same group, groups and members in
/// input order — exactly the run folding that `group_runs` states.
#[verifier::external_body]
fn chunk_pairs(pairs: Vec<(u64, u64)>) -> (r: Vec<(u64, Vec<u64>)>)
    ensures
        r.deep_view() == group_runs(pairs.deep_view()),
{
    let mut r: Vec<(u64, Vec<u64>)> = Vec::new();
    for (k, chunk) in &pairs.into_iter().chunk_by(|p| p.0) {
        r.push((k, chunk.map(|p| p.1).collect()));
    }
    r
}

/// Groups resolved (schema id, record id) pairs into per-schema runs.
pub fn group_pairs(pairs: Vec<(u64, u64)>) -> (r: Vec<(u64, Vec<u64>)>)
    ensures
        r.deep_view() == group_runs(pairs.deep_view()),
        flatten_groups(r.deep_view()) == pairs.deep_view(),
{
    proof {
        lemma_group_runs_flatten(pairs.deep_view());
    }
    chunk_pairs(pairs)
}

} // verus!
