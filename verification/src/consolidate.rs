//! Consolidation: one crate spec per crate.
use crate::crate_spec::{models, CrateSpec, CrateSpecModel};
use crate::error::AqueryError;
use crate::text::{compare_texts, text_less, text_less_irreflexive, text_less_transitive, Order};
use vstd::prelude::*;

verus! {

/// The specs of the crate `id`, in order.
pub open spec fn specs_of(specs: Seq<CrateSpecModel>, id: Seq<char>) -> Seq<CrateSpecModel> {
    specs.filter(|spec: CrateSpecModel| spec.crate_id == id)
}

/// The first of `specs` with each later one merged into it in turn.
pub open spec fn merged(specs: Seq<CrateSpecModel>) -> CrateSpecModel
    recommends
        specs.len() > 0,
    decreases specs.len(),
{
    if specs.len() <= 1 {
        specs[0]
    } else {
        merged(specs.drop_last()).merge(specs.last())
    }
}

/// Sorted by crate ID, with no ID twice.
pub open spec fn sorted_by_id(specs: Seq<CrateSpecModel>) -> bool {
    forall|i: int, j: int|
        0 <= i < j < specs.len() ==> text_less(specs[i].crate_id, specs[j].crate_id)
}

/// One of `specs` is a spec of the crate `id`.
pub open spec fn mentions(specs: Seq<CrateSpecModel>, id: Seq<char>) -> bool {
    exists|i: int| 0 <= i < specs.len() && #[trigger] specs[i].crate_id == id
}

/// `out` lists, sorted by ID, the crates of `specs`, each with all its specs merged.
pub open spec fn is_consolidation(out: Seq<CrateSpecModel>, specs: Seq<CrateSpecModel>) -> bool {
    &&& sorted_by_id(out)
    &&& forall|id: Seq<char>| #[trigger] mentions(out, id) <==> mentions(specs, id)
    &&& forall|i: int|
        0 <= i < out.len() ==> #[trigger] out[i] == merged(specs_of(specs, out[i].crate_id))
}

/// Appending a spec appends it to the specs of its own crate, and changes those of
/// no other.
pub proof fn lemma_specs_of_push(specs: Seq<CrateSpecModel>, spec: CrateSpecModel, id: Seq<char>)
    ensures
        specs_of(specs.push(spec), id) == if spec.crate_id == id {
            specs_of(specs, id).push(spec)
        } else {
            specs_of(specs, id)
        },
{
    reveal(Seq::filter);
    assert(specs.push(spec).drop_last() =~= specs);
}

/// A crate has specs exactly if it is mentioned, and they all carry its ID.
pub proof fn lemma_specs_of_members(specs: Seq<CrateSpecModel>, id: Seq<char>)
    ensures
        specs_of(specs, id).len() > 0 <==> mentions(specs, id),
        forall|i: int|
            0 <= i < specs_of(specs, id).len() ==> #[trigger] specs_of(specs, id)[i].crate_id == id
                && specs.contains(specs_of(specs, id)[i]),
    decreases specs.len(),
{
    if specs.len() > 0 {
        let front = specs.drop_last();
        lemma_specs_of_members(front, id);
        assert(specs =~= front.push(specs.last()));
        lemma_specs_of_push(front, specs.last(), id);
    }
}

/// A further spec of a crate that `out` already lists is merged into its entry.
proof fn lemma_merge_known(
    out: Seq<CrateSpecModel>,
    specs: Seq<CrateSpecModel>,
    spec: CrateSpecModel,
    k: int,
)
    requires
        is_consolidation(out, specs),
        0 <= k < out.len(),
        out[k].crate_id == spec.crate_id,
    ensures
        is_consolidation(out.update(k, out[k].merge(spec)), specs.push(spec)),
{
    let next = out.update(k, out[k].merge(spec));
    let all = specs.push(spec);
    assert forall|id: Seq<char>| #[trigger] mentions(next, id) <==> mentions(all, id) by {
        lemma_mentions_push(specs, spec, id);
        if mentions(out, id) {
            let i = choose|i: int| 0 <= i < out.len() && #[trigger] out[i].crate_id == id;
            assert(next[i].crate_id == id);
        }
    }
    assert forall|i: int| 0 <= i < next.len() implies #[trigger] next[i] == merged(
        specs_of(all, next[i].crate_id),
    ) by {
        lemma_specs_of_push(specs, spec, out[i].crate_id);
        if i == k {
            let before = specs_of(specs, spec.crate_id);
            assert(mentions(out, spec.crate_id));
            lemma_specs_of_members(specs, spec.crate_id);
            assert(before.push(spec).drop_last() =~= before);
        } else {
            text_less_irreflexive(out[k].crate_id);
        }
    }
}

/// The first spec of a crate becomes its entry, at the place where its ID belongs.
proof fn lemma_insert_new(
    out: Seq<CrateSpecModel>,
    specs: Seq<CrateSpecModel>,
    spec: CrateSpecModel,
    k: int,
)
    requires
        is_consolidation(out, specs),
        0 <= k <= out.len(),
        forall|i: int| 0 <= i < k ==> text_less(#[trigger] out[i].crate_id, spec.crate_id),
        forall|i: int| k <= i < out.len() ==> text_less(spec.crate_id, #[trigger] out[i].crate_id),
    ensures
        is_consolidation(out.insert(k, spec), specs.push(spec)),
{
    let next = out.insert(k, spec);
    let all = specs.push(spec);
    text_less_irreflexive(spec.crate_id);
    assert(!mentions(out, spec.crate_id));
    assert forall|id: Seq<char>| #[trigger] mentions(next, id) <==> mentions(all, id) by {
        lemma_mentions_push(specs, spec, id);
        if mentions(out, id) {
            let i = choose|i: int| 0 <= i < out.len() && #[trigger] out[i].crate_id == id;
            let at = if i < k { i } else { i + 1 };
            assert(next[at].crate_id == id);
        }
        if id == spec.crate_id {
            assert(next[k].crate_id == id);
        }
    }
    assert forall|i: int| 0 <= i < next.len() implies #[trigger] next[i] == merged(
        specs_of(all, next[i].crate_id),
    ) by {
        lemma_specs_of_push(specs, spec, next[i].crate_id);
        if i == k {
            lemma_specs_of_members(specs, spec.crate_id);
        }
    }
}

/// Appending a spec mentions its crate, and no other.
pub proof fn lemma_mentions_push(specs: Seq<CrateSpecModel>, spec: CrateSpecModel, id: Seq<char>)
    ensures
        mentions(specs.push(spec), id) <==> mentions(specs, id) || spec.crate_id == id,
{
    let all = specs.push(spec);
    if mentions(specs, id) {
        let i = choose|i: int| 0 <= i < specs.len() && #[trigger] specs[i].crate_id == id;
        assert(all[i].crate_id == id);
    }
    if spec.crate_id == id {
        assert(all[specs.len() as int].crate_id == id);
    }
}

/// Looks up the crate `id` in `specs`, which is sorted by ID: `Ok` with its index, or
/// `Err` with the index at which a spec of it belongs.
fn find_crate(specs: &Vec<CrateSpec>, id: &str) -> (place: Result<usize, usize>)
    requires
        sorted_by_id(models(specs@)),
    ensures
        match place {
            Ok(k) => k < specs.len() && specs[k as int].crate_id@ == id@,
            Err(k) => {
                &&& k <= specs.len()
                &&& forall|i: int|
                    0 <= i < k ==> text_less(#[trigger] models(specs@)[i].crate_id, id@)
                &&& forall|i: int|
                    k <= i < specs.len() ==> text_less(
                        id@,
                        #[trigger] models(specs@)[i].crate_id,
                    )
            },
        },
{
    let ghost all = models(specs@);
    let mut low: usize = 0;
    let mut high: usize = specs.len();
    while low < high
        invariant
            all == models(specs@),
            sorted_by_id(all),
            0 <= low <= high <= specs.len(),
            forall|i: int| 0 <= i < low ==> text_less(#[trigger] all[i].crate_id, id@),
            forall|i: int| high <= i < specs.len() ==> text_less(id@, #[trigger] all[i].crate_id),
        decreases high - low,
    {
        let mid: usize = low + (high - low) / 2;
        let ghost at = all[mid as int].crate_id;
        match compare_texts(specs[mid].crate_id.as_str(), id) {
            Order::Same => {
                return Ok(mid);
            },
            Order::Before => {
                proof {
                    assert forall|i: int| 0 <= i < mid + 1 implies text_less(
                        #[trigger] all[i].crate_id,
                        id@,
                    ) by {
                        if i < mid {
                            text_less_transitive(all[i].crate_id, at, id@);
                        }
                    }
                }
                low = mid + 1;
            },
            Order::After => {
                proof {
                    assert forall|i: int| mid <= i < specs.len() implies text_less(
                        id@,
                        #[trigger] all[i].crate_id,
                    ) by {
                        if mid < i {
                            text_less_transitive(id@, at, all[i].crate_id);
                        }
                    }
                }
                high = mid;
            },
        }
    }
    Err(low)
}

/// Deduplicates crates with the same ID. This happens when a rust_test depends on a
/// rust_library, for example.
///
/// The result has one spec per crate, sorted by crate ID.
pub fn consolidate_crate_specs(crate_specs: Vec<CrateSpec>) -> (result: Result<
    Vec<CrateSpec>,
    AqueryError,
>)
    ensures
        result is Ok,
        is_consolidation(models(result->Ok_0@), models(crate_specs@)),
{
    let mut consolidated: Vec<CrateSpec> = Vec::new();
    let ghost all = models(crate_specs@);
    for spec in it: crate_specs
        invariant
            it.seq() == crate_specs@,
            all == models(crate_specs@),
            is_consolidation(models(consolidated@), all.take(it.index() as int)),
    {
        let ghost out = models(consolidated@);
        let ghost seen = all.take(it.index() as int);
        let ghost model = spec@;
        assert(all.take(it.index() + 1) =~= seen.push(model));
        match find_crate(&consolidated, spec.crate_id.as_str()) {
            Ok(k) => {
                proof {
                    lemma_merge_known(out, seen, model, k as int);
                }
                consolidated[k].merge(spec);
                assert(models(consolidated@) =~= out.update(k as int, out[k as int].merge(model)));
            },
            Err(k) => {
                proof {
                    lemma_insert_new(out, seen, model, k as int);
                }
                consolidated.insert(k, spec);
                assert(models(consolidated@) =~= out.insert(k as int, model));
            },
        }
    }
    assert(all.take(crate_specs@.len() as int) =~= all);
    Ok(consolidated)
}

} // verus!
