//! What merging and consolidating do to each field of the crate specs.
use crate::consolidate::{
    is_consolidation, lemma_mentions_push, lemma_specs_of_members, lemma_specs_of_push, mentions,
    merged, specs_of,
};
use crate::crate_spec::{models, CrateSpec, CrateSpecModel};
use crate::laws::{
    first_decides_without_library, first_decides_without_opt_exec_path, last_library_decides,
    last_opt_exec_path_decides, merged_cfgs_grow, merged_keeps_first, merged_unites_cfgs,
    merged_unites_deps,
};
use crate::text::{occurrence_splits, occurs_in, text_less, text_less_irreflexive};
use vstd::prelude::*;

verus! {

/// The model of a crate spec has each field of the spec.
pub proof fn model_has_all_fields(spec: CrateSpec)
    ensures
        spec@.crate_id == spec.crate_id@,
        spec@.display_name == spec.display_name@,
        spec@.edition == spec.edition@,
        spec@.root_module == spec.root_module@,
        spec@.is_workspace_member == spec.is_workspace_member,
        spec@.deps == spec.deps.deep_view(),
        spec@.proc_macro_dylib_path is Some <==> spec.proc_macro_dylib_path is Some,
        spec.proc_macro_dylib_path is Some ==> spec@.proc_macro_dylib_path->0
            == spec.proc_macro_dylib_path->0@,
        spec@.source is Some <==> spec.source is Some,
        spec.source matches Some(source) ==> {
            let dirs = spec@.source->0;
            &&& dirs.exclude_dirs.len() == source.exclude_dirs@.len()
            &&& dirs.include_dirs.len() == source.include_dirs@.len()
            &&& forall|i: int|
                0 <= i < dirs.exclude_dirs.len() ==> #[trigger] dirs.exclude_dirs[i]
                    == source.exclude_dirs@[i]@
            &&& forall|i: int|
                0 <= i < dirs.include_dirs.len() ==> #[trigger] dirs.include_dirs[i]
                    == source.include_dirs@[i]@
        },
        spec@.cfg.len() == spec.cfg@.len(),
        forall|i: int|
            0 <= i < spec.cfg@.len() ==> #[trigger] spec@.cfg[i] == spec.cfg@[i]@,
        spec@.env == spec.env.deep_view(),
        spec@.target == spec.target@,
        spec@.crate_type == spec.crate_type@,
{
}

/// The models of crate specs stand in the order of the specs, one for each.
pub proof fn models_in_order(specs: Seq<CrateSpec>)
    ensures
        models(specs).len() == specs.len(),
        forall|i: int| 0 <= i < specs.len() ==> #[trigger] models(specs)[i] == specs[i]@,
{
}

/// A library is what has the crate type `rlib`, whatever else the spec says.
pub proof fn libraries_are_rlibs(spec: CrateSpecModel)
    ensures
        spec.is_rlib() <==> spec.crate_type == "rlib"@,
{
}

/// A proc macro path is an optimized one exactly if `-opt-exec-` stands in it, whatever
/// stands before and after.
pub proof fn optimized_paths_hold_opt_exec(spec: CrateSpecModel)
    ensures
        spec.has_opt_exec_path() <==> exists|before: Seq<char>, after: Seq<char>|
            spec.proc_macro_dylib_path == Some(#[trigger] (before + "-opt-exec-"@ + after)),
{
    if let Some(path) = spec.proc_macro_dylib_path {
        occurrence_splits("-opt-exec-"@, path);
    }
}

/// Merging changes five fields. Dependencies are united. The display name and the crate
/// type follow a spec of crate type `rlib`. The proc macro path follows a path with
/// `-opt-exec-` in it. (The cfgs have a law of their own.) Everything else stays.
pub proof fn merge_by_field(a: CrateSpecModel, b: CrateSpecModel)
    ensures
        forall|dep: Seq<char>| #[trigger]
            a.merge(b).deps.contains(dep) <==> a.deps.contains(dep) || b.deps.contains(dep),
        b.crate_type == "rlib"@ ==> a.merge(b).display_name == b.display_name
            && a.merge(b).crate_type == "rlib"@,
        b.crate_type != "rlib"@ ==> a.merge(b).display_name == a.display_name
            && a.merge(b).crate_type == a.crate_type,
        b.proc_macro_dylib_path is Some && occurs_in("-opt-exec-"@, b.proc_macro_dylib_path->0)
            ==> a.merge(b).proc_macro_dylib_path == b.proc_macro_dylib_path,
        b.proc_macro_dylib_path is None || !occurs_in("-opt-exec-"@, b.proc_macro_dylib_path->0)
            ==> a.merge(b).proc_macro_dylib_path == a.proc_macro_dylib_path,
        a.merge(b).crate_id == a.crate_id,
        a.merge(b).edition == a.edition,
        a.merge(b).root_module == a.root_module,
        a.merge(b).is_workspace_member == a.is_workspace_member,
        a.merge(b).source == a.source,
        a.merge(b).env == a.env,
        a.merge(b).target == a.target,
{
}

/// Merging takes the cfgs of the later spec one by one. Each is appended, unless the
/// earlier spec has it.
pub proof fn merge_takes_cfgs_in_turn(a: CrateSpecModel, b: CrateSpecModel, shorter: CrateSpecModel)
    requires
        b.cfg.len() > 0 ==> shorter.cfg == b.cfg.drop_last(),
    ensures
        b.cfg.len() == 0 ==> a.merge(b).cfg == a.cfg,
        b.cfg.len() > 0 && a.cfg.contains(b.cfg.last()) ==> a.merge(b).cfg == a.merge(shorter).cfg,
        b.cfg.len() > 0 && !a.cfg.contains(b.cfg.last()) ==> a.merge(b).cfg == a.merge(
            shorter,
        ).cfg.push(b.cfg.last()),
{
    reveal(Seq::filter);
}

/// Among the specs of one crate, the last of crate type `rlib` gives the merge its display
/// name, and the merge is an `rlib` too.
pub proof fn last_rlib_decides(specs: Seq<CrateSpecModel>, k: int)
    requires
        0 <= k < specs.len(),
        specs[k].crate_type == "rlib"@,
        forall|i: int| k < i < specs.len() ==> (#[trigger] specs[i]).crate_type != "rlib"@,
    ensures
        merged(specs).display_name == specs[k].display_name,
        merged(specs).crate_type == "rlib"@,
{
    last_library_decides(specs, k);
}

/// Among the specs of one crate, the last proc macro path with `-opt-exec-` in it is the
/// path of the merge.
pub proof fn last_optimized_path_decides(specs: Seq<CrateSpecModel>, k: int)
    requires
        0 <= k < specs.len(),
        specs[k].proc_macro_dylib_path is Some,
        occurs_in("-opt-exec-"@, specs[k].proc_macro_dylib_path->0),
        forall|i: int|
            k < i < specs.len() && (#[trigger] specs[i]).proc_macro_dylib_path is Some
                ==> !occurs_in("-opt-exec-"@, specs[i].proc_macro_dylib_path->0),
    ensures
        merged(specs).proc_macro_dylib_path == specs[k].proc_macro_dylib_path,
{
    last_opt_exec_path_decides(specs, k);
}

/// A consolidation is sorted by crate ID, with no ID twice.
pub proof fn entries_sorted(out: Seq<CrateSpecModel>, specs: Seq<CrateSpecModel>, i: int, j: int)
    requires
        is_consolidation(out, specs),
        0 <= i < j < out.len(),
    ensures
        text_less(out[i].crate_id, out[j].crate_id),
        out[i].crate_id != out[j].crate_id,
{
    text_less_irreflexive(out[i].crate_id);
}

/// A consolidation lists the crate of each spec.
pub proof fn each_crate_listed(out: Seq<CrateSpecModel>, specs: Seq<CrateSpecModel>, s: int)
    requires
        is_consolidation(out, specs),
        0 <= s < specs.len(),
    ensures
        exists|k: int|
            0 <= k < out.len() && (#[trigger] out[k]).crate_id == specs[s].crate_id,
{
    assert(mentions(out, specs[s].crate_id));
}

/// A consolidation lists no crate without a spec.
pub proof fn no_other_crate_listed(out: Seq<CrateSpecModel>, specs: Seq<CrateSpecModel>, k: int)
    requires
        is_consolidation(out, specs),
        0 <= k < out.len(),
    ensures
        exists|s: int|
            0 <= s < specs.len() && (#[trigger] specs[s]).crate_id == out[k].crate_id,
{
    assert(mentions(out, out[k].crate_id));
}

/// The specs of a crate are those before one of them, that one, and those after it.
proof fn lemma_specs_around(specs: Seq<CrateSpecModel>, s: int, id: Seq<char>)
    requires
        0 <= s < specs.len(),
        specs[s].crate_id == id,
    ensures
        specs_of(specs, id) == specs_of(specs.take(s), id) + seq![specs[s]] + specs_of(
            specs.skip(s + 1),
            id,
        ),
{
    let p = |spec: CrateSpecModel| spec.crate_id == id;
    let before = specs.take(s);
    let after = specs.skip(s + 1);
    assert(specs =~= before.push(specs[s]) + after);
    Seq::filter_distributes_over_add(before.push(specs[s]), after, p);
    lemma_specs_of_push(before, specs[s], id);
}

/// A spec without an earlier one of its crate is the first of its crate.
proof fn lemma_first_of_crate(specs: Seq<CrateSpecModel>, s: int, id: Seq<char>)
    requires
        0 <= s < specs.len(),
        specs[s].crate_id == id,
        forall|i: int| 0 <= i < s ==> (#[trigger] specs[i]).crate_id != id,
    ensures
        specs_of(specs, id).len() > 0,
        specs_of(specs, id)[0] == specs[s],
{
    lemma_specs_around(specs, s, id);
    lemma_specs_of_members(specs.take(s), id);
}

/// Where the specs of a crate hold `specs[s]`, so that what follows there satisfies what the
/// specs of the crate after `s` do.
proof fn lemma_later_of_crate(
    specs: Seq<CrateSpecModel>,
    s: int,
    id: Seq<char>,
    p: spec_fn(CrateSpecModel) -> bool,
) -> (at: int)
    requires
        0 <= s < specs.len(),
        specs[s].crate_id == id,
        forall|i: int| s < i < specs.len() && (#[trigger] specs[i]).crate_id == id ==> p(specs[i]),
    ensures
        0 <= at < specs_of(specs, id).len(),
        specs_of(specs, id)[at] == specs[s],
        forall|i: int|
            at < i < specs_of(specs, id).len() ==> p(#[trigger] specs_of(specs, id)[i]),
{
    let all = specs_of(specs, id);
    let after = specs.skip(s + 1);
    let at = specs_of(specs.take(s), id).len() as int;
    lemma_specs_around(specs, s, id);
    lemma_specs_of_members(after, id);
    assert forall|i: int| at < i < all.len() implies p(#[trigger] all[i]) by {
        assert(all[i] == specs_of(after, id)[i - at - 1]);
    }
    at
}

/// The entry of a crate has the dependencies and the cfgs of all its specs, and no others.
pub proof fn entry_unites_specs(
    out: Seq<CrateSpecModel>,
    specs: Seq<CrateSpecModel>,
    k: int,
    text: Seq<char>,
)
    requires
        is_consolidation(out, specs),
        0 <= k < out.len(),
    ensures
        out[k].deps.contains(text) <==> exists|s: int|
            0 <= s < specs.len() && (#[trigger] specs[s]).crate_id == out[k].crate_id
                && specs[s].deps.contains(text),
        out[k].cfg.contains(text) <==> exists|s: int|
            0 <= s < specs.len() && (#[trigger] specs[s]).crate_id == out[k].crate_id
                && specs[s].cfg.contains(text),
{
    let id = out[k].crate_id;
    let all = specs_of(specs, id);
    assert(mentions(out, id));
    lemma_specs_of_members(specs, id);
    merged_unites_deps(all, text);
    merged_unites_cfgs(all, text);
    assert forall|s: int| 0 <= s < specs.len() && (#[trigger] specs[s]).crate_id == id implies
        all.contains(specs[s]) by {
        lemma_later_of_crate(specs, s, id, |spec: CrateSpecModel| true);
    }
}

/// The entry of a crate keeps of the first of its specs what no merge touches, and its cfgs
/// start with those of that spec, in order.
pub proof fn entry_keeps_first_spec(
    out: Seq<CrateSpecModel>,
    specs: Seq<CrateSpecModel>,
    k: int,
    s: int,
)
    requires
        is_consolidation(out, specs),
        0 <= k < out.len(),
        0 <= s < specs.len(),
        specs[s].crate_id == out[k].crate_id,
        forall|i: int| 0 <= i < s ==> (#[trigger] specs[i]).crate_id != out[k].crate_id,
    ensures
        out[k].edition == specs[s].edition,
        out[k].root_module == specs[s].root_module,
        out[k].is_workspace_member == specs[s].is_workspace_member,
        out[k].source == specs[s].source,
        out[k].env == specs[s].env,
        out[k].target == specs[s].target,
        specs[s].cfg.is_prefix_of(out[k].cfg),
{
    let id = out[k].crate_id;
    lemma_first_of_crate(specs, s, id);
    merged_keeps_first(specs_of(specs, id));
    merged_cfgs_grow(specs_of(specs, id));
}

/// The last spec of a crate that has the crate type `rlib` names the entry of the crate,
/// which is an `rlib` too.
pub proof fn last_rlib_names_entry(
    out: Seq<CrateSpecModel>,
    specs: Seq<CrateSpecModel>,
    k: int,
    s: int,
)
    requires
        is_consolidation(out, specs),
        0 <= k < out.len(),
        0 <= s < specs.len(),
        specs[s].crate_id == out[k].crate_id,
        specs[s].crate_type == "rlib"@,
        forall|i: int|
            s < i < specs.len() && (#[trigger] specs[i]).crate_id == out[k].crate_id
                ==> specs[i].crate_type != "rlib"@,
    ensures
        out[k].display_name == specs[s].display_name,
        out[k].crate_type == "rlib"@,
{
    let id = out[k].crate_id;
    let at = lemma_later_of_crate(
        specs,
        s,
        id,
        |spec: CrateSpecModel| spec.crate_type != "rlib"@,
    );
    last_rlib_decides(specs_of(specs, id), at);
}

/// Where no spec of a crate has the crate type `rlib`, the first one gives the entry its
/// display name and crate type.
pub proof fn first_spec_names_entry_without_rlib(
    out: Seq<CrateSpecModel>,
    specs: Seq<CrateSpecModel>,
    k: int,
    s: int,
)
    requires
        is_consolidation(out, specs),
        0 <= k < out.len(),
        0 <= s < specs.len(),
        specs[s].crate_id == out[k].crate_id,
        forall|i: int| 0 <= i < s ==> (#[trigger] specs[i]).crate_id != out[k].crate_id,
        forall|i: int|
            0 <= i < specs.len() && (#[trigger] specs[i]).crate_id == out[k].crate_id
                ==> specs[i].crate_type != "rlib"@,
    ensures
        out[k].display_name == specs[s].display_name,
        out[k].crate_type == specs[s].crate_type,
{
    let id = out[k].crate_id;
    lemma_first_of_crate(specs, s, id);
    lemma_specs_of_members(specs, id);
    first_decides_without_library(specs_of(specs, id));
}

/// The last proc macro path with `-opt-exec-` in it, among the specs of a crate, is the path
/// of its entry.
pub proof fn last_optimized_path_in_entry(
    out: Seq<CrateSpecModel>,
    specs: Seq<CrateSpecModel>,
    k: int,
    s: int,
)
    requires
        is_consolidation(out, specs),
        0 <= k < out.len(),
        0 <= s < specs.len(),
        specs[s].crate_id == out[k].crate_id,
        specs[s].proc_macro_dylib_path is Some,
        occurs_in("-opt-exec-"@, specs[s].proc_macro_dylib_path->0),
        forall|i: int|
            s < i < specs.len() && (#[trigger] specs[i]).crate_id == out[k].crate_id
                && specs[i].proc_macro_dylib_path is Some ==> !occurs_in(
                "-opt-exec-"@,
                specs[i].proc_macro_dylib_path->0,
            ),
    ensures
        out[k].proc_macro_dylib_path == specs[s].proc_macro_dylib_path,
{
    let id = out[k].crate_id;
    let at = lemma_later_of_crate(
        specs,
        s,
        id,
        |spec: CrateSpecModel|
            spec.proc_macro_dylib_path is Some ==> !occurs_in(
                "-opt-exec-"@,
                spec.proc_macro_dylib_path->0,
            ),
    );
    last_optimized_path_decides(specs_of(specs, id), at);
}

/// Where no proc macro path among the specs of a crate has `-opt-exec-` in it, the path of
/// its entry is that of the first spec.
pub proof fn first_path_in_entry_without_optimized(
    out: Seq<CrateSpecModel>,
    specs: Seq<CrateSpecModel>,
    k: int,
    s: int,
)
    requires
        is_consolidation(out, specs),
        0 <= k < out.len(),
        0 <= s < specs.len(),
        specs[s].crate_id == out[k].crate_id,
        forall|i: int| 0 <= i < s ==> (#[trigger] specs[i]).crate_id != out[k].crate_id,
        forall|i: int|
            0 <= i < specs.len() && (#[trigger] specs[i]).crate_id == out[k].crate_id
                && specs[i].proc_macro_dylib_path is Some ==> !occurs_in(
                "-opt-exec-"@,
                specs[i].proc_macro_dylib_path->0,
            ),
    ensures
        out[k].proc_macro_dylib_path == specs[s].proc_macro_dylib_path,
{
    let id = out[k].crate_id;
    lemma_first_of_crate(specs, s, id);
    lemma_specs_of_members(specs, id);
    first_decides_without_opt_exec_path(specs_of(specs, id));
}

/// A further spec is merged into the entry of its crate, or becomes it where there is none.
/// The other entries stay as they are, and there are no others.
pub proof fn one_more_spec(
    out: Seq<CrateSpecModel>,
    specs: Seq<CrateSpecModel>,
    spec: CrateSpecModel,
    next: Seq<CrateSpecModel>,
)
    requires
        is_consolidation(out, specs),
        is_consolidation(next, specs.push(spec)),
    ensures
        forall|k: int|
            0 <= k < out.len() ==> next.contains(
                if (#[trigger] out[k]).crate_id == spec.crate_id {
                    out[k].merge(spec)
                } else {
                    out[k]
                },
            ),
        (forall|k: int| 0 <= k < out.len() ==> (#[trigger] out[k]).crate_id != spec.crate_id)
            ==> next.contains(spec),
        forall|k: int|
            0 <= k < next.len() && (#[trigger] next[k]).crate_id != spec.crate_id ==> out.contains(
                next[k],
            ),
{
    assert forall|id: Seq<char>| #[trigger] mentions(next, id) <==> mentions(out, id)
        || spec.crate_id == id by {
        lemma_mentions_push(specs, spec, id);
    }
    assert forall|k: int| 0 <= k < out.len() implies next.contains(
        if (#[trigger] out[k]).crate_id == spec.crate_id {
            out[k].merge(spec)
        } else {
            out[k]
        },
    ) by {
        let id = out[k].crate_id;
        assert(mentions(next, id));
        lemma_specs_of_push(specs, spec, id);
        lemma_specs_of_members(specs, id);
        assert(specs_of(specs, id).push(spec).drop_last() =~= specs_of(specs, id));
    }
    if forall|k: int| 0 <= k < out.len() ==> (#[trigger] out[k]).crate_id != spec.crate_id {
        let id = spec.crate_id;
        assert(!mentions(out, id));
        assert(mentions(next, id));
        lemma_specs_of_push(specs, spec, id);
        lemma_specs_of_members(specs, id);
    }
    assert forall|k: int|
        0 <= k < next.len() && (#[trigger] next[k]).crate_id != spec.crate_id implies out.contains(
        next[k],
    ) by {
        let id = next[k].crate_id;
        assert(mentions(next, id));
        lemma_specs_of_push(specs, spec, id);
    }
}

} // verus!
