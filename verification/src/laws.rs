use vstd::prelude::*;

use crate::engine::{
    apply_updates_spec, changed_count, collect_updates, record_changes, record_result,
    subst_fields, targeted,
};
use crate::pattern::replaced;
use crate::store::{field_ord_spec, lemma_field_ord_spec};

verus! {

/// For an empty record-id set a run returns zero and performs no writes:
/// no update is collected, and applying the collected updates leaves the
/// store exactly as it is.
pub proof fn lemma_empty_batch(
    recs: Map<u64, (u64, Seq<Seq<char>>)>,
    schemas: Map<u64, Seq<Seq<char>>>,
    p: Seq<char>,
    rep: Seq<char>,
    fname: Option<Seq<char>>,
)
    ensures
        changed_count(recs, schemas, p, rep, fname, Seq::<u64>::empty()) == 0,
        apply_updates_spec(
            recs,
            collect_updates(recs, schemas, p, rep, fname, Seq::<u64>::empty()),
        ) == recs,
{
}

/// A substitution that rewrites none of the targeted field texts leaves a
/// record's fields exactly as they are.
pub proof fn lemma_unchanged_fields(
    p: Seq<char>,
    rep: Seq<char>,
    fs: Seq<Seq<char>>,
    ord: Option<int>,
)
    requires
        forall|j: int|
            0 <= j < fs.len() && targeted(ord, j) ==> #[trigger] replaced(p, rep, fs[j]) == fs[j],
    ensures
        subst_fields(p, rep, fs, ord) == fs,
{
    let out = subst_fields(p, rep, fs, ord);
    assert forall|j: int| 0 <= j < fs.len() implies out[j] == fs[j] by {
        if targeted(ord, j) {
            assert(replaced(p, rep, fs[j]) == fs[j]);
        }
    }
    assert(out =~= fs);
}

/// Write-avoidance: when substitution changes none of the named records —
/// because the pattern matches nothing in any targeted field, or because
/// the batch re-runs a substitution over its own already substituted
/// output — the run changes nothing: the count is zero, no update is
/// collected, and the store stays exactly as it is.
pub proof fn lemma_no_change_no_writes(
    recs: Map<u64, (u64, Seq<Seq<char>>)>,
    schemas: Map<u64, Seq<Seq<char>>>,
    p: Seq<char>,
    rep: Seq<char>,
    fname: Option<Seq<char>>,
    ids: Seq<u64>,
)
    requires
        forall|t: int|
            0 <= t < ids.len() ==> !record_changes(recs, schemas, p, rep, fname, #[trigger] ids[t]),
    ensures
        changed_count(recs, schemas, p, rep, fname, ids) == 0,
        collect_updates(recs, schemas, p, rep, fname, ids) == Seq::<(u64, Seq<Seq<char>>)>::empty(),
        apply_updates_spec(recs, collect_updates(recs, schemas, p, rep, fname, ids)) == recs,
    decreases ids.len(),
{
    if ids.len() > 0 {
        let front = ids.drop_last();
        assert(forall|t: int| 0 <= t < front.len() ==> front[t] == ids[t]);
        assert forall|t: int| 0 <= t < front.len() implies !record_changes(
            recs,
            schemas,
            p,
            rep,
            fname,
            #[trigger] front[t],
        ) by {
            assert(!record_changes(recs, schemas, p, rep, fname, ids[t]));
        }
        lemma_no_change_no_writes(recs, schemas, p, rep, fname, front);
        assert(ids[ids.len() - 1] == ids.last());
        assert(!record_changes(recs, schemas, p, rep, fname, ids.last()));
    }
}

/// Field-targeting fall-back: under a schema that has a field of the target
/// name, exactly the first field of that name is substituted; under a
/// schema that lacks it, the run falls back to substituting every field —
/// absence is neither an error nor a no-op.
pub proof fn lemma_field_fallback(
    p: Seq<char>,
    rep: Seq<char>,
    name: Seq<char>,
    has_field: Seq<Seq<char>>,
    lacks_field: Seq<Seq<char>>,
    fs_has: Seq<Seq<char>>,
    fs_lacks: Seq<Seq<char>>,
)
    requires
        has_field.contains(name),
        !lacks_field.contains(name),
        fs_has.len() == has_field.len(),
    ensures
        field_ord_spec(has_field, name) matches Option::Some(o) && 0 <= o < has_field.len()
            && has_field[o] == name && record_result(p, rep, has_field, Option::Some(name), fs_has)
            == fs_has.update(o, replaced(p, rep, fs_has[o])),
        field_ord_spec(lacks_field, name) is None,
        record_result(p, rep, lacks_field, Option::Some(name), fs_lacks) == Seq::new(
            fs_lacks.len(),
            |i: int| replaced(p, rep, fs_lacks[i]),
        ),
{
    lemma_field_ord_spec(has_field, name);
    if field_ord_spec(has_field, name) is None {
        let j = choose|j: int| 0 <= j < has_field.len() && has_field[j] == name;
        assert(has_field[j] != name);
    }
    lemma_field_ord_spec(lacks_field, name);
    match field_ord_spec(lacks_field, name) {
        Option::Some(o) => {
            assert(lacks_field[o] == name);
            assert(lacks_field.contains(name));
        },
        Option::None => {},
    }
}

} // verus!
