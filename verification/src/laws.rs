//! What holds of merging and consolidating, whatever the specs are.
use crate::consolidate::{
    is_consolidation, lemma_specs_of_members, mentions, merged, sorted_by_id, specs_of,
};
use crate::crate_spec::CrateSpecModel;
use crate::text::{text_less, text_less_irreflexive, text_less_transitive};
use vstd::prelude::*;

verus! {

/// Filtering twice keeps what passes both filters.
proof fn lemma_filter_filter<A>(
    s: Seq<A>,
    p: spec_fn(A) -> bool,
    q: spec_fn(A) -> bool,
    both: spec_fn(A) -> bool,
)
    requires
        forall|x: A| #[trigger] both(x) <==> p(x) && q(x),
    ensures
        s.filter(p).filter(q) == s.filter(both),
    decreases s.len(),
{
    reveal(Seq::filter);
    if s.len() > 0 {
        let front = s.drop_last();
        lemma_filter_filter(front, p, q, both);
        if p(s.last()) {
            assert(front.filter(p).push(s.last()).drop_last() =~= front.filter(p));
        }
    }
}

/// What a filtered sequence holds.
proof fn lemma_filter_holds<A>(s: Seq<A>, p: spec_fn(A) -> bool, x: A)
    ensures
        s.filter(p).contains(x) <==> s.contains(x) && p(x),
{
    broadcast use vstd::seq_lib::group_filter_ensures;

    if s.filter(p).contains(x) {
        s.lemma_filter_contains_rev(p, x);
    }
}

/// What a sequence made of two parts holds.
proof fn lemma_add_holds<A>(s: Seq<A>, t: Seq<A>, x: A)
    ensures
        (s + t).contains(x) <==> s.contains(x) || t.contains(x),
{
    if s.contains(x) {
        let i = choose|i: int| 0 <= i < s.len() && s[i] == x;
        assert((s + t)[i] == x);
    }
    if t.contains(x) {
        let i = choose|i: int| 0 <= i < t.len() && t[i] == x;
        assert((s + t)[s.len() + i] == x);
    }
}

/// A merge holds the cfgs of both specs, and no others.
pub proof fn merge_unites_cfgs(a: CrateSpecModel, b: CrateSpecModel, c: Seq<char>)
    ensures
        a.merge(b).cfg.contains(c) <==> a.cfg.contains(c) || b.cfg.contains(c),
{
    let fresh = |c: Seq<char>| !a.cfg.contains(c);
    lemma_filter_holds(b.cfg, fresh, c);
    lemma_add_holds(a.cfg, b.cfg.filter(fresh), c);
}

/// It does not matter in which order three specs are merged, as long as they stand in
/// the same order.
pub proof fn merge_associative(a: CrateSpecModel, b: CrateSpecModel, c: CrateSpecModel)
    ensures
        a.merge(b).merge(c) == a.merge(b.merge(c)),
{
    let not_a = |x: Seq<char>| !a.cfg.contains(x);
    let not_b = |x: Seq<char>| !b.cfg.contains(x);
    let not_ab = |x: Seq<char>| !a.merge(b).cfg.contains(x);
    assert forall|x: Seq<char>| #[trigger] not_ab(x) <==> not_b(x) && not_a(x) by {
        merge_unites_cfgs(a, b, x);
    }
    lemma_filter_filter(c.cfg, not_b, not_a, not_ab);
    Seq::filter_distributes_over_add(b.cfg, c.cfg.filter(not_b), not_a);
}

/// Merging a spec into itself changes nothing.
pub proof fn merge_idempotent(a: CrateSpecModel)
    ensures
        a.merge(a) == a,
{
    lemma_merge_same_cfg(a, a);
}

/// Merging a spec with the same cfgs leaves the cfgs as they are.
proof fn lemma_merge_same_cfg(a: CrateSpecModel, b: CrateSpecModel)
    requires
        a.cfg == b.cfg,
    ensures
        a.merge(b).cfg == a.cfg,
{
    let fresh = |c: Seq<char>| !a.cfg.contains(c);
    assert forall|x: Seq<char>| !b.cfg.filter(fresh).contains(x) by {
        lemma_filter_holds(b.cfg, fresh, x);
    }
    let rest = b.cfg.filter(fresh);
    if rest.len() > 0 {
        assert(rest.contains(rest[0]));
    }
}

/// A merge holds the dependencies of all specs, and no others.
pub proof fn merged_unites_deps(specs: Seq<CrateSpecModel>, dep: Seq<char>)
    requires
        specs.len() > 0,
    ensures
        merged(specs).deps.contains(dep) <==> exists|i: int|
            0 <= i < specs.len() && #[trigger] specs[i].deps.contains(dep),
    decreases specs.len(),
{
    if specs.len() > 1 {
        let front = specs.drop_last();
        merged_unites_deps(front, dep);
        if exists|i: int| 0 <= i < specs.len() && #[trigger] specs[i].deps.contains(dep) {
            let i = choose|i: int| 0 <= i < specs.len() && #[trigger] specs[i].deps.contains(dep);
            if i < front.len() {
                assert(front[i].deps.contains(dep));
            }
        }
    }
}

/// A merge holds the cfgs of all specs, and no others.
pub proof fn merged_unites_cfgs(specs: Seq<CrateSpecModel>, cfg: Seq<char>)
    requires
        specs.len() > 0,
    ensures
        merged(specs).cfg.contains(cfg) <==> exists|i: int|
            0 <= i < specs.len() && #[trigger] specs[i].cfg.contains(cfg),
    decreases specs.len(),
{
    if specs.len() > 1 {
        let front = specs.drop_last();
        merged_unites_cfgs(front, cfg);
        merge_unites_cfgs(merged(front), specs.last(), cfg);
        if exists|i: int| 0 <= i < specs.len() && #[trigger] specs[i].cfg.contains(cfg) {
            let i = choose|i: int| 0 <= i < specs.len() && #[trigger] specs[i].cfg.contains(cfg);
            if i < front.len() {
                assert(front[i].cfg.contains(cfg));
            }
        }
    }
}

/// The cfgs of a merge start with those of the first spec, in order. Where no spec
/// has a cfg twice, neither has the merge.
pub proof fn merged_cfgs_grow(specs: Seq<CrateSpecModel>)
    requires
        specs.len() > 0,
    ensures
        specs[0].cfg.is_prefix_of(merged(specs).cfg),
        (forall|i: int| 0 <= i < specs.len() ==> (#[trigger] specs[i]).cfg.no_duplicates())
            ==> merged(specs).cfg.no_duplicates(),
    decreases specs.len(),
{
    if specs.len() > 1 {
        let front = specs.drop_last();
        merged_cfgs_grow(front);
        let first = merged(front).cfg;
        let later = specs.last().cfg;
        let fresh = |c: Seq<char>| !first.contains(c);
        let rest = later.filter(fresh);
        if forall|i: int| 0 <= i < specs.len() ==> (#[trigger] specs[i]).cfg.no_duplicates() {
            lemma_filter_keeps_distinct(later, fresh);
            assert forall|i: int, j: int|
                0 <= i < first.len() && first.len() <= j < first.len() + rest.len() implies (first
                + rest)[i] != (first + rest)[j] by {
                lemma_filter_holds(later, fresh, rest[j - first.len()]);
            }
        }
    }
}

/// Filtering brings no item in twice.
proof fn lemma_filter_keeps_distinct<A>(s: Seq<A>, p: spec_fn(A) -> bool)
    requires
        s.no_duplicates(),
    ensures
        s.filter(p).no_duplicates(),
    decreases s.len(),
{
    reveal(Seq::filter);
    if s.len() > 0 {
        let front = s.drop_last();
        lemma_filter_keeps_distinct(front, p);
        lemma_filter_holds(front, p, s.last());
    }
}

/// What no merge touches stays as the first spec has it.
pub proof fn merged_keeps_first(specs: Seq<CrateSpecModel>)
    requires
        specs.len() > 0,
    ensures
        merged(specs).crate_id == specs[0].crate_id,
        merged(specs).edition == specs[0].edition,
        merged(specs).root_module == specs[0].root_module,
        merged(specs).is_workspace_member == specs[0].is_workspace_member,
        merged(specs).source == specs[0].source,
        merged(specs).env == specs[0].env,
        merged(specs).target == specs[0].target,
    decreases specs.len(),
{
    if specs.len() > 1 {
        merged_keeps_first(specs.drop_last());
    }
}

/// The last library among the specs gives the merge its display name and crate type.
pub proof fn last_library_decides(specs: Seq<CrateSpecModel>, k: int)
    requires
        0 <= k < specs.len(),
        specs[k].is_rlib(),
        forall|i: int| k < i < specs.len() ==> !(#[trigger] specs[i]).is_rlib(),
    ensures
        merged(specs).display_name == specs[k].display_name,
        merged(specs).is_rlib(),
    decreases specs.len(),
{
    if k < specs.len() - 1 {
        last_library_decides(specs.drop_last(), k);
    }
}

/// Without a library among the specs, the first spec gives the merge its display name
/// and crate type.
pub proof fn first_decides_without_library(specs: Seq<CrateSpecModel>)
    requires
        specs.len() > 0,
        forall|i: int| 0 <= i < specs.len() ==> !(#[trigger] specs[i]).is_rlib(),
    ensures
        merged(specs).display_name == specs[0].display_name,
        merged(specs).crate_type == specs[0].crate_type,
    decreases specs.len(),
{
    if specs.len() > 1 {
        first_decides_without_library(specs.drop_last());
    }
}

/// The library's display name is the display name of the crate, wherever the library
/// stands among the specs.
pub proof fn library_names_crate(specs: Seq<CrateSpecModel>, library: CrateSpecModel)
    requires
        specs.contains(library),
        library.is_rlib(),
        forall|i: int|
            0 <= i < specs.len() && (#[trigger] specs[i]).is_rlib() ==> specs[i].display_name
                == library.display_name,
    ensures
        merged(specs).display_name == library.display_name,
        merged(specs).is_rlib(),
{
    let at = choose|i: int| 0 <= i < specs.len() && specs[i] == library;
    let k = lemma_last(specs, |spec: CrateSpecModel| spec.is_rlib(), at);
    last_library_decides(specs, k);
}

/// Where some item passes, there is a last one that does.
proof fn lemma_last(
    specs: Seq<CrateSpecModel>,
    p: spec_fn(CrateSpecModel) -> bool,
    at: int,
) -> (k: int)
    requires
        0 <= at < specs.len(),
        p(specs[at]),
    ensures
        0 <= k < specs.len(),
        p(specs[k]),
        forall|i: int| k < i < specs.len() ==> !p(#[trigger] specs[i]),
    decreases specs.len() - at,
{
    if exists|j: int| at < j < specs.len() && p(#[trigger] specs[j]) {
        let j = choose|j: int| at < j < specs.len() && p(#[trigger] specs[j]);
        lemma_last(specs, p, j)
    } else {
        at
    }
}

/// The last optimized path among the specs is the proc macro path of the merge.
pub proof fn last_opt_exec_path_decides(specs: Seq<CrateSpecModel>, k: int)
    requires
        0 <= k < specs.len(),
        specs[k].has_opt_exec_path(),
        forall|i: int| k < i < specs.len() ==> !(#[trigger] specs[i]).has_opt_exec_path(),
    ensures
        merged(specs).proc_macro_dylib_path == specs[k].proc_macro_dylib_path,
    decreases specs.len(),
{
    if k < specs.len() - 1 {
        last_opt_exec_path_decides(specs.drop_last(), k);
    }
}

/// Without an optimized path among the specs, the proc macro path is that of the first
/// spec.
pub proof fn first_decides_without_opt_exec_path(specs: Seq<CrateSpecModel>)
    requires
        specs.len() > 0,
        forall|i: int| 0 <= i < specs.len() ==> !(#[trigger] specs[i]).has_opt_exec_path(),
    ensures
        merged(specs).proc_macro_dylib_path == specs[0].proc_macro_dylib_path,
    decreases specs.len(),
{
    if specs.len() > 1 {
        first_decides_without_opt_exec_path(specs.drop_last());
    }
}

/// An optimized proc macro path is preferred, wherever it stands among the specs.
pub proof fn opt_exec_path_preferred(specs: Seq<CrateSpecModel>, optimized: CrateSpecModel)
    requires
        specs.contains(optimized),
        optimized.has_opt_exec_path(),
    ensures
        merged(specs).has_opt_exec_path(),
        (forall|i: int|
            0 <= i < specs.len() && (#[trigger] specs[i]).has_opt_exec_path()
                ==> specs[i].proc_macro_dylib_path == optimized.proc_macro_dylib_path)
            ==> merged(specs).proc_macro_dylib_path == optimized.proc_macro_dylib_path,
{
    let at = choose|i: int| 0 <= i < specs.len() && specs[i] == optimized;
    let k = lemma_last(specs, |spec: CrateSpecModel| spec.has_opt_exec_path(), at);
    last_opt_exec_path_decides(specs, k);
}

/// Two sorted lists of the same crates have the same IDs at the same places.
proof fn lemma_same_ids(a: Seq<CrateSpecModel>, b: Seq<CrateSpecModel>, n: int)
    requires
        sorted_by_id(a),
        sorted_by_id(b),
        forall|id: Seq<char>| #[trigger] mentions(a, id) <==> mentions(b, id),
        0 <= n <= a.len(),
    ensures
        n <= b.len(),
        forall|i: int| 0 <= i < n ==> (#[trigger] a[i]).crate_id == b[i].crate_id,
    decreases n,
{
    if n > 0 {
        let k = n - 1;
        lemma_same_ids(a, b, k);
        let id = a[k].crate_id;
        text_less_irreflexive(id);
        assert(mentions(a, id));
        let j = choose|j: int| 0 <= j < b.len() && #[trigger] b[j].crate_id == id;
        if j < k {
            assert(text_less(a[j].crate_id, a[k].crate_id));
        }
        if j > k {
            let other = b[k].crate_id;
            assert(mentions(a, other));
            let i = choose|i: int| 0 <= i < a.len() && #[trigger] a[i].crate_id == other;
            text_less_irreflexive(other);
            if i < k {
                assert(text_less(b[i].crate_id, b[k].crate_id));
            } else if i > k {
                text_less_transitive(id, other, id);
            }
        }
    }
}

/// Two consolidations of specs that mention the same crates list the same crates at
/// the same places.
proof fn lemma_same_crates(
    a: Seq<CrateSpecModel>,
    b: Seq<CrateSpecModel>,
    specs: Seq<CrateSpecModel>,
    others: Seq<CrateSpecModel>,
)
    requires
        is_consolidation(a, specs),
        is_consolidation(b, others),
        forall|id: Seq<char>| #[trigger] mentions(specs, id) <==> mentions(others, id),
    ensures
        a.len() == b.len(),
        forall|i: int| 0 <= i < a.len() ==> (#[trigger] a[i]).crate_id == b[i].crate_id,
{
    assert forall|id: Seq<char>| #[trigger] mentions(a, id) <==> mentions(b, id) by {
        assert(mentions(b, id) <==> mentions(others, id));
    }
    lemma_same_ids(a, b, a.len() as int);
    lemma_same_ids(b, a, b.len() as int);
}

/// Specs have one consolidation only.
pub proof fn consolidation_unique(
    a: Seq<CrateSpecModel>,
    b: Seq<CrateSpecModel>,
    specs: Seq<CrateSpecModel>,
)
    requires
        is_consolidation(a, specs),
        is_consolidation(b, specs),
    ensures
        a == b,
{
    lemma_same_crates(a, b, specs, specs);
    assert forall|i: int| 0 <= i < a.len() implies a[i] == b[i] by {
        assert(b[i] == merged(specs_of(specs, b[i].crate_id)));
    }
}

/// In a list without an ID twice, each entry is the only spec of its crate.
proof fn lemma_specs_of_sorted(specs: Seq<CrateSpecModel>, k: int)
    requires
        sorted_by_id(specs),
        0 <= k < specs.len(),
    ensures
        specs_of(specs, specs[k].crate_id) == seq![specs[k]],
{
    let id = specs[k].crate_id;
    let p = |spec: CrateSpecModel| spec.crate_id == id;
    let before = specs.take(k);
    let after = specs.skip(k + 1);
    text_less_irreflexive(id);
    lemma_specs_of_members(before, id);
    lemma_specs_of_members(after, id);
    assert(specs =~= before + seq![specs[k]] + after);
    Seq::filter_distributes_over_add(before + seq![specs[k]], after, p);
    Seq::filter_distributes_over_add(before, seq![specs[k]], p);
    assert(seq![specs[k]].filter(p) =~= seq![specs[k]]) by {
        reveal(Seq::filter);
    }
}

/// Specs that are sorted by ID, with no ID twice, are their own consolidation.
pub proof fn sorted_specs_unchanged(specs: Seq<CrateSpecModel>)
    requires
        sorted_by_id(specs),
    ensures
        is_consolidation(specs, specs),
{
    assert forall|i: int| 0 <= i < specs.len() implies #[trigger] specs[i] == merged(
        specs_of(specs, specs[i].crate_id),
    ) by {
        lemma_specs_of_sorted(specs, i);
    }
}

/// Consolidating a second time changes nothing.
pub proof fn consolidation_idempotent(
    once: Seq<CrateSpecModel>,
    twice: Seq<CrateSpecModel>,
    specs: Seq<CrateSpecModel>,
)
    requires
        is_consolidation(once, specs),
        is_consolidation(twice, once),
    ensures
        twice == once,
{
    sorted_specs_unchanged(once);
    consolidation_unique(once, twice, once);
}

/// What a consolidation keeps of a crate is the merge of its specs, or nothing where it
/// has none.
proof fn lemma_specs_of_consolidation(
    out: Seq<CrateSpecModel>,
    specs: Seq<CrateSpecModel>,
    id: Seq<char>,
)
    requires
        is_consolidation(out, specs),
    ensures
        specs_of(out, id) == if specs_of(specs, id).len() > 0 {
            seq![merged(specs_of(specs, id))]
        } else {
            Seq::empty()
        },
{
    lemma_specs_of_members(specs, id);
    lemma_specs_of_members(out, id);
    if mentions(out, id) {
        let k = choose|k: int| 0 <= k < out.len() && #[trigger] out[k].crate_id == id;
        lemma_specs_of_sorted(out, k);
    } else {
        assert(specs_of(out, id) =~= Seq::empty());
    }
}

/// Merging what is already merged with more specs is merging all of them.
proof fn lemma_merged_front(front: Seq<CrateSpecModel>, back: Seq<CrateSpecModel>)
    requires
        front.len() > 0,
    ensures
        merged(seq![merged(front)] + back) == merged(front + back),
    decreases back.len(),
{
    if back.len() == 0 {
        assert(seq![merged(front)] + back =~= seq![merged(front)]);
    } else {
        lemma_merged_front(front, back.drop_last());
        assert((front + back).drop_last() =~= front + back.drop_last());
        assert((seq![merged(front)] + back).drop_last() =~= seq![merged(front)]
            + back.drop_last());
    }
}

/// Merging specs with what is already merged is merging all of them.
proof fn lemma_merged_back(front: Seq<CrateSpecModel>, back: Seq<CrateSpecModel>)
    requires
        back.len() > 0,
    ensures
        merged(front + seq![merged(back)]) == merged(front + back),
    decreases back.len(),
{
    if front.len() == 0 {
        assert(front + seq![merged(back)] =~= seq![merged(back)]);
    } else {
        assert((front + seq![merged(back)]).drop_last() =~= front);
        assert((front + back).drop_last() =~= front + back.drop_last());
        if back.len() == 1 {
            assert(front + back.drop_last() =~= front);
        } else {
            let most = back.drop_last();
            lemma_merged_back(front, most);
            assert((front + seq![merged(most)]).drop_last() =~= front);
            merge_associative(merged(front), merged(most), back.last());
        }
    }
}

/// The crates of a list made of two parts are those of the parts.
proof fn lemma_add_mentions(s: Seq<CrateSpecModel>, t: Seq<CrateSpecModel>, id: Seq<char>)
    ensures
        mentions(s + t, id) <==> mentions(s, id) || mentions(t, id),
{
    if mentions(s, id) {
        let i = choose|i: int| 0 <= i < s.len() && #[trigger] s[i].crate_id == id;
        assert((s + t)[i].crate_id == id);
    }
    if mentions(t, id) {
        let i = choose|i: int| 0 <= i < t.len() && #[trigger] t[i].crate_id == id;
        assert((s + t)[s.len() + i].crate_id == id);
    }
}

/// Two lists whose crates have specs with the same merges have the same
/// consolidations.
proof fn lemma_same_merges(
    out: Seq<CrateSpecModel>,
    specs: Seq<CrateSpecModel>,
    others: Seq<CrateSpecModel>,
)
    requires
        is_consolidation(out, specs),
        forall|id: Seq<char>| #[trigger] mentions(specs, id) <==> mentions(others, id),
        forall|id: Seq<char>| #[trigger]
            mentions(specs, id) ==> merged(specs_of(specs, id)) == merged(specs_of(others, id)),
    ensures
        is_consolidation(out, others),
{
    assert forall|i: int| 0 <= i < out.len() implies #[trigger] out[i] == merged(
        specs_of(others, out[i].crate_id),
    ) by {
        assert(mentions(out, out[i].crate_id));
    }
}

/// Specs can be consolidated in batches: consolidating the first batch before the rest
/// comes, or the last batch before it is added, gives what consolidating everything
/// at once gives.
pub proof fn consolidation_in_batches(
    out: Seq<CrateSpecModel>,
    batch: Seq<CrateSpecModel>,
    rest: Seq<CrateSpecModel>,
    all: Seq<CrateSpecModel>,
)
    requires
        is_consolidation(out, batch),
    ensures
        is_consolidation(all, out + rest) <==> is_consolidation(all, batch + rest),
        is_consolidation(all, rest + out) <==> is_consolidation(all, rest + batch),
{
    assert forall|id: Seq<char>| #[trigger]
        mentions(out + rest, id) <==> mentions(batch + rest, id) by {
        lemma_add_mentions(out, rest, id);
        lemma_add_mentions(batch, rest, id);
    }
    assert forall|id: Seq<char>| #[trigger]
        mentions(rest + out, id) <==> mentions(rest + batch, id) by {
        lemma_add_mentions(rest, out, id);
        lemma_add_mentions(rest, batch, id);
    }
    assert forall|id: Seq<char>| merged(#[trigger] specs_of(out + rest, id)) == merged(
        specs_of(batch + rest, id),
    ) by {
        lemma_batch_merges(out, batch, rest, id);
    }
    assert forall|id: Seq<char>| merged(#[trigger] specs_of(rest + out, id)) == merged(
        specs_of(rest + batch, id),
    ) by {
        lemma_batch_merges(out, batch, rest, id);
    }
}

/// Consolidating a batch first does not change what the specs of a crate merge to.
proof fn lemma_batch_merges(
    out: Seq<CrateSpecModel>,
    batch: Seq<CrateSpecModel>,
    rest: Seq<CrateSpecModel>,
    id: Seq<char>,
)
    requires
        is_consolidation(out, batch),
    ensures
        merged(specs_of(out + rest, id)) == merged(specs_of(batch + rest, id)),
        merged(specs_of(rest + out, id)) == merged(specs_of(rest + batch, id)),
{
    let p = |spec: CrateSpecModel| spec.crate_id == id;
    Seq::filter_distributes_over_add(out, rest, p);
    Seq::filter_distributes_over_add(batch, rest, p);
    Seq::filter_distributes_over_add(rest, out, p);
    Seq::filter_distributes_over_add(rest, batch, p);
    lemma_specs_of_consolidation(out, batch, id);
    let mine = specs_of(batch, id);
    let others = specs_of(rest, id);
    if mine.len() > 0 {
        lemma_merged_front(mine, others);
        lemma_merged_back(others, mine);
    } else {
        assert(mine =~= Seq::empty());
    }
}

/// One of `specs` is a library of the crate `id`.
pub open spec fn has_library(specs: Seq<CrateSpecModel>, id: Seq<char>) -> bool {
    exists|spec: CrateSpecModel| #[trigger]
        specs.contains(spec) && spec.crate_id == id && spec.is_rlib()
}

/// One of `specs` has an optimized proc macro path for the crate `id`.
pub open spec fn has_optimized(specs: Seq<CrateSpecModel>, id: Seq<char>) -> bool {
    exists|spec: CrateSpecModel| #[trigger]
        specs.contains(spec) && spec.crate_id == id && spec.has_opt_exec_path()
}

/// Among `specs`, it makes no difference which of `s` and `t` comes first.
///
/// They agree on what merges keep from the first spec, and on their cfgs. If both are
/// libraries, or none of the crate's specs is, they agree on the display name and the
/// crate type. If both have an optimized proc macro path, or none of the crate's specs
/// has, they agree on the path.
pub open spec fn interchangeable(
    specs: Seq<CrateSpecModel>,
    s: CrateSpecModel,
    t: CrateSpecModel,
) -> bool {
    &&& s.edition == t.edition
    &&& s.root_module == t.root_module
    &&& s.is_workspace_member == t.is_workspace_member
    &&& s.source == t.source
    &&& s.cfg == t.cfg
    &&& s.env == t.env
    &&& s.target == t.target
    &&& s.is_rlib() && t.is_rlib() ==> s.display_name == t.display_name
    &&& !has_library(specs, s.crate_id) ==> s.display_name == t.display_name && s.crate_type
        == t.crate_type
    &&& s.has_opt_exec_path() && t.has_opt_exec_path() ==> s.proc_macro_dylib_path
        == t.proc_macro_dylib_path
    &&& !has_optimized(specs, s.crate_id) ==> s.proc_macro_dylib_path == t.proc_macro_dylib_path
}

/// The specs leave nothing open about a crate that their order would have to decide.
pub open spec fn order_free(specs: Seq<CrateSpecModel>) -> bool {
    forall|s: CrateSpecModel, t: CrateSpecModel|
        specs.contains(s) && specs.contains(t) && s.crate_id == t.crate_id
            ==> #[trigger] interchangeable(specs, s, t)
}

/// Two lists hold the same specs, in any order and any number of times.
pub open spec fn same_specs(a: Seq<CrateSpecModel>, b: Seq<CrateSpecModel>) -> bool {
    forall|spec: CrateSpecModel| #[trigger] a.contains(spec) <==> b.contains(spec)
}

/// Lists that hold the same specs mention the same crates.
proof fn lemma_same_specs_mention(a: Seq<CrateSpecModel>, b: Seq<CrateSpecModel>, id: Seq<char>)
    requires
        same_specs(a, b),
    ensures
        mentions(a, id) <==> mentions(b, id),
{
    if mentions(a, id) {
        let i = choose|i: int| 0 <= i < a.len() && #[trigger] a[i].crate_id == id;
        assert(a.contains(a[i]));
    }
    if mentions(b, id) {
        let i = choose|i: int| 0 <= i < b.len() && #[trigger] b[i].crate_id == id;
        assert(a.contains(b[i]));
    }
}

/// Lists that hold the same specs hold the same specs of each crate.
proof fn lemma_same_specs_of(a: Seq<CrateSpecModel>, b: Seq<CrateSpecModel>, id: Seq<char>)
    requires
        same_specs(a, b),
    ensures
        same_specs(specs_of(a, id), specs_of(b, id)),
{
    let p = |spec: CrateSpecModel| spec.crate_id == id;
    assert forall|spec: CrateSpecModel| #[trigger] specs_of(a, id).contains(spec) <==> specs_of(
        b,
        id,
    ).contains(spec) by {
        lemma_filter_holds(a, p, spec);
        lemma_filter_holds(b, p, spec);
    }
}

/// Specs with the same cfgs merge to those cfgs.
proof fn lemma_merged_same_cfg(specs: Seq<CrateSpecModel>)
    requires
        specs.len() > 0,
        forall|i: int| 0 <= i < specs.len() ==> (#[trigger] specs[i]).cfg == specs[0].cfg,
    ensures
        merged(specs).cfg == specs[0].cfg,
    decreases specs.len(),
{
    if specs.len() > 1 {
        let front = specs.drop_last();
        lemma_merged_same_cfg(front);
        lemma_merge_same_cfg(merged(front), specs.last());
    }
}

/// The merge has an optimized proc macro path exactly if one of the specs has.
pub proof fn merged_is_optimized(specs: Seq<CrateSpecModel>)
    requires
        specs.len() > 0,
    ensures
        merged(specs).has_opt_exec_path() <==> exists|i: int|
            0 <= i < specs.len() && (#[trigger] specs[i]).has_opt_exec_path(),
{
    if exists|i: int| 0 <= i < specs.len() && (#[trigger] specs[i]).has_opt_exec_path() {
        let at = choose|i: int| 0 <= i < specs.len() && (#[trigger] specs[i]).has_opt_exec_path();
        opt_exec_path_preferred(specs, specs[at]);
    } else {
        first_decides_without_opt_exec_path(specs);
    }
}

/// The merge is a library exactly if one of the specs is.
pub proof fn merged_is_library(specs: Seq<CrateSpecModel>)
    requires
        specs.len() > 0,
    ensures
        merged(specs).is_rlib() <==> exists|i: int|
            0 <= i < specs.len() && (#[trigger] specs[i]).is_rlib(),
{
    if exists|i: int| 0 <= i < specs.len() && (#[trigger] specs[i]).is_rlib() {
        let at = choose|i: int| 0 <= i < specs.len() && (#[trigger] specs[i]).is_rlib();
        let k = lemma_last(specs, |spec: CrateSpecModel| spec.is_rlib(), at);
        last_library_decides(specs, k);
    } else {
        first_decides_without_library(specs);
    }
}

/// Which dependencies and cfgs the specs of one crate merge to, and whether to a library
/// and an optimized proc macro path, does not depend on their order.
proof fn lemma_same_specs_merge(g: Seq<CrateSpecModel>, h: Seq<CrateSpecModel>)
    requires
        g.len() > 0,
        h.len() > 0,
        same_specs(g, h),
    ensures
        merged(g).deps == merged(h).deps,
        forall|c: Seq<char>| merged(g).cfg.contains(c) <==> merged(h).cfg.contains(c),
        merged(g).is_rlib() <==> merged(h).is_rlib(),
        merged(g).has_opt_exec_path() <==> merged(h).has_opt_exec_path(),
{
    assert forall|i: int| 0 <= i < g.len() implies h.contains(#[trigger] g[i]) by {
        assert(g.contains(g[i]));
    }
    assert forall|i: int| 0 <= i < h.len() implies g.contains(#[trigger] h[i]) by {
        assert(h.contains(h[i]));
    }
    lemma_half_merge(g, h);
    lemma_half_merge(h, g);
}

/// Whatever `h` holds as well is in its merge as well.
proof fn lemma_half_merge(g: Seq<CrateSpecModel>, h: Seq<CrateSpecModel>)
    requires
        g.len() > 0,
        h.len() > 0,
        forall|i: int| 0 <= i < g.len() ==> h.contains(#[trigger] g[i]),
    ensures
        forall|d: Seq<char>| merged(g).deps.contains(d) ==> merged(h).deps.contains(d),
        forall|c: Seq<char>| merged(g).cfg.contains(c) ==> merged(h).cfg.contains(c),
        merged(g).is_rlib() ==> merged(h).is_rlib(),
        merged(g).has_opt_exec_path() ==> merged(h).has_opt_exec_path(),
{
    assert forall|d: Seq<char>| merged(g).deps.contains(d) implies merged(h).deps.contains(d) by {
        merged_unites_deps(g, d);
        merged_unites_deps(h, d);
        let i = choose|i: int| 0 <= i < g.len() && #[trigger] g[i].deps.contains(d);
        assert(h.contains(g[i]));
    }
    assert forall|c: Seq<char>| merged(g).cfg.contains(c) implies merged(h).cfg.contains(c) by {
        merged_unites_cfgs(g, c);
        merged_unites_cfgs(h, c);
        let i = choose|i: int| 0 <= i < g.len() && #[trigger] g[i].cfg.contains(c);
        assert(h.contains(g[i]));
    }
    merged_is_library(g);
    merged_is_library(h);
    merged_is_optimized(g);
    merged_is_optimized(h);
}

/// The order of the specs never changes which crates come out and in which order, which
/// dependencies and which cfgs they have, which of them are libraries, and which of them
/// have an optimized proc macro path.
pub proof fn order_keeps_contents(
    a: Seq<CrateSpecModel>,
    b: Seq<CrateSpecModel>,
    specs: Seq<CrateSpecModel>,
    reordered: Seq<CrateSpecModel>,
)
    requires
        is_consolidation(a, specs),
        is_consolidation(b, reordered),
        same_specs(specs, reordered),
    ensures
        a.len() == b.len(),
        forall|i: int| #![trigger a[i]] #![trigger b[i]]
            0 <= i < a.len() ==> {
                &&& a[i].crate_id == b[i].crate_id
                &&& a[i].deps == b[i].deps
                &&& forall|c: Seq<char>| a[i].cfg.contains(c) <==> b[i].cfg.contains(c)
                &&& a[i].is_rlib() <==> b[i].is_rlib()
                &&& a[i].has_opt_exec_path() <==> b[i].has_opt_exec_path()
            },
{
    assert forall|id: Seq<char>| #[trigger] mentions(specs, id) <==> mentions(reordered, id) by {
        lemma_same_specs_mention(specs, reordered, id);
    }
    lemma_same_crates(a, b, specs, reordered);
    assert forall|i: int| #![trigger a[i]] #![trigger b[i]] 0 <= i < a.len() implies {
        &&& a[i].crate_id == b[i].crate_id
        &&& a[i].deps == b[i].deps
        &&& forall|c: Seq<char>| a[i].cfg.contains(c) <==> b[i].cfg.contains(c)
        &&& a[i].is_rlib() <==> b[i].is_rlib()
        &&& a[i].has_opt_exec_path() <==> b[i].has_opt_exec_path()
    } by {
        let id = a[i].crate_id;
        assert(mentions(a, id));
        lemma_specs_of_members(specs, id);
        lemma_specs_of_members(reordered, id);
        lemma_same_specs_of(specs, reordered, id);
        lemma_same_specs_merge(specs_of(specs, id), specs_of(reordered, id));
    }
}

/// A consolidated crate has the display name of its library, wherever the library stands
/// among the specs. (Where libraries of one crate disagree on the name, the last one
/// decides.)
pub proof fn library_names_consolidated_crate(
    out: Seq<CrateSpecModel>,
    specs: Seq<CrateSpecModel>,
    library: CrateSpecModel,
    i: int,
)
    requires
        is_consolidation(out, specs),
        specs.contains(library),
        library.is_rlib(),
        forall|s: CrateSpecModel| #[trigger]
            specs.contains(s) && s.crate_id == library.crate_id && s.is_rlib() ==> s.display_name
                == library.display_name,
        0 <= i < out.len(),
        out[i].crate_id == library.crate_id,
    ensures
        out[i].display_name == library.display_name,
        out[i].is_rlib(),
{
    let id = library.crate_id;
    let mine = specs_of(specs, id);
    lemma_filter_holds(specs, |spec: CrateSpecModel| spec.crate_id == id, library);
    lemma_specs_of_members(specs, id);
    library_names_crate(mine, library);
}

/// A consolidated crate has an optimized proc macro path if one of its specs has, wherever
/// that spec stands, and then the path of one of its specs.
pub proof fn opt_exec_path_consolidated(
    out: Seq<CrateSpecModel>,
    specs: Seq<CrateSpecModel>,
    optimized: CrateSpecModel,
    i: int,
)
    requires
        is_consolidation(out, specs),
        specs.contains(optimized),
        optimized.has_opt_exec_path(),
        0 <= i < out.len(),
        out[i].crate_id == optimized.crate_id,
    ensures
        out[i].has_opt_exec_path(),
        exists|s: CrateSpecModel| #[trigger]
            specs.contains(s) && s.crate_id == out[i].crate_id && s.proc_macro_dylib_path
                == out[i].proc_macro_dylib_path,
{
    let id = optimized.crate_id;
    let mine = specs_of(specs, id);
    lemma_filter_holds(specs, |spec: CrateSpecModel| spec.crate_id == id, optimized);
    lemma_specs_of_members(specs, id);
    let at = choose|k: int| 0 <= k < mine.len() && mine[k] == optimized;
    let k = lemma_last(mine, |spec: CrateSpecModel| spec.has_opt_exec_path(), at);
    last_opt_exec_path_decides(mine, k);
}

/// Where the specs leave nothing open, their order does not matter at all.
pub proof fn order_does_not_matter(
    out: Seq<CrateSpecModel>,
    specs: Seq<CrateSpecModel>,
    reordered: Seq<CrateSpecModel>,
)
    requires
        is_consolidation(out, specs),
        order_free(specs),
        same_specs(specs, reordered),
    ensures
        is_consolidation(out, reordered),
{
    assert forall|id: Seq<char>| #[trigger] mentions(specs, id) <==> mentions(reordered, id) by {
        lemma_same_specs_mention(specs, reordered, id);
    }
    assert forall|id: Seq<char>| #[trigger] mentions(specs, id) implies merged(specs_of(specs, id))
        == merged(specs_of(reordered, id)) by {
        lemma_order_free_merge(specs, reordered, id);
    }
    lemma_same_merges(out, specs, reordered);
}

/// Where the specs leave nothing open, those of one crate merge to the same spec in
/// any order.
proof fn lemma_order_free_merge(
    specs: Seq<CrateSpecModel>,
    reordered: Seq<CrateSpecModel>,
    id: Seq<char>,
)
    requires
        order_free(specs),
        same_specs(specs, reordered),
        mentions(specs, id),
    ensures
        merged(specs_of(specs, id)) == merged(specs_of(reordered, id)),
{
    let g = specs_of(specs, id);
    let h = specs_of(reordered, id);
    lemma_specs_of_members(specs, id);
    lemma_specs_of_members(reordered, id);
    lemma_same_specs_of(specs, reordered, id);
    lemma_same_specs_merge(g, h);
    assert forall|i: int| 0 <= i < h.len() implies specs.contains(#[trigger] h[i]) by {
        assert(reordered.contains(h[i]));
    }
    lemma_order_free_fields(specs, g, id);
    lemma_order_free_fields(specs, h, id);
    assert(interchangeable(specs, g[0], h[0]));
    lemma_order_free_choice(specs, g, h, id);
}

/// Where the specs leave nothing open, the fields that a later spec may override do not
/// depend on the order.
proof fn lemma_order_free_choice(
    specs: Seq<CrateSpecModel>,
    g: Seq<CrateSpecModel>,
    h: Seq<CrateSpecModel>,
    id: Seq<char>,
)
    requires
        order_free(specs),
        g == specs_of(specs, id),
        g.len() > 0,
        h.len() > 0,
        same_specs(g, h),
    ensures
        merged(g).display_name == merged(h).display_name,
        merged(g).crate_type == merged(h).crate_type,
        merged(g).proc_macro_dylib_path == merged(h).proc_macro_dylib_path,
{
    let p = |spec: CrateSpecModel| spec.crate_id == id;
    lemma_specs_of_members(specs, id);
    assert forall|i: int| 0 <= i < h.len() implies specs.contains(#[trigger] h[i])
        && h[i].crate_id == id by {
        lemma_filter_holds(specs, p, h[i]);
    }
    assert(interchangeable(specs, g[0], h[0]));
    lemma_order_free_fields(specs, g, id);
    lemma_order_free_fields(specs, h, id);
    if has_library(specs, id) {
        let l = choose|l: CrateSpecModel| #[trigger]
            specs.contains(l) && l.crate_id == id && l.is_rlib();
        lemma_filter_holds(specs, p, l);
    }
    if has_optimized(specs, id) {
        let o = choose|o: CrateSpecModel| #[trigger]
            specs.contains(o) && o.crate_id == id && o.has_opt_exec_path();
        lemma_filter_holds(specs, p, o);
    }
}

/// What the fields of a merge are, where the specs leave nothing open.
proof fn lemma_order_free_fields(
    specs: Seq<CrateSpecModel>,
    g: Seq<CrateSpecModel>,
    id: Seq<char>,
)
    requires
        order_free(specs),
        g.len() > 0,
        forall|i: int|
            0 <= i < g.len() ==> specs.contains(#[trigger] g[i]) && g[i].crate_id == id,
    ensures
        merged(g).crate_id == id,
        merged(g).edition == g[0].edition,
        merged(g).root_module == g[0].root_module,
        merged(g).is_workspace_member == g[0].is_workspace_member,
        merged(g).source == g[0].source,
        merged(g).env == g[0].env,
        merged(g).target == g[0].target,
        merged(g).cfg == g[0].cfg,
        forall|l: CrateSpecModel| #[trigger]
            g.contains(l) && l.is_rlib() ==> merged(g).display_name == l.display_name && merged(
                g,
            ).is_rlib(),
        !has_library(specs, id) ==> merged(g).display_name == g[0].display_name && merged(
            g,
        ).crate_type == g[0].crate_type,
        forall|o: CrateSpecModel| #[trigger]
            g.contains(o) && o.has_opt_exec_path() ==> merged(g).proc_macro_dylib_path
                == o.proc_macro_dylib_path,
        !has_optimized(specs, id) ==> merged(g).proc_macro_dylib_path
            == g[0].proc_macro_dylib_path,
{
    merged_keeps_first(g);
    assert forall|i: int| 0 <= i < g.len() implies (#[trigger] g[i]).cfg == g[0].cfg by {
        assert(interchangeable(specs, g[i], g[0]));
    }
    lemma_merged_same_cfg(g);
    assert forall|l: CrateSpecModel| #[trigger] g.contains(l) && l.is_rlib() implies merged(
        g,
    ).display_name == l.display_name && merged(g).is_rlib() by {
        assert forall|i: int|
            0 <= i < g.len() && (#[trigger] g[i]).is_rlib() implies g[i].display_name
            == l.display_name by {
            assert(interchangeable(specs, g[i], l));
        }
        library_names_crate(g, l);
    }
    assert forall|o: CrateSpecModel| #[trigger]
        g.contains(o) && o.has_opt_exec_path() implies merged(g).proc_macro_dylib_path
        == o.proc_macro_dylib_path by {
        assert forall|i: int|
            0 <= i < g.len() && (#[trigger] g[i]).has_opt_exec_path() implies
            g[i].proc_macro_dylib_path == o.proc_macro_dylib_path by {
            assert(interchangeable(specs, g[i], o));
        }
        opt_exec_path_preferred(g, o);
    }
    if !has_library(specs, id) {
        assert forall|i: int| 0 <= i < g.len() implies !(#[trigger] g[i]).is_rlib() by {
            assert(specs.contains(g[i]));
        }
        first_decides_without_library(g);
    }
    if !has_optimized(specs, id) {
        assert forall|i: int| 0 <= i < g.len() implies !(
        #[trigger] g[i]).has_opt_exec_path() by {
            assert(specs.contains(g[i]));
        }
        first_decides_without_opt_exec_path(g);
    }
}

} // verus!
