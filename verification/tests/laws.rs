//! The laws of merging and consolidating, on concrete specs.
use aquery::{consolidate_crate_specs, CrateSpec, CrateSpecSource};
use itertools::Itertools;
use std::collections::{BTreeMap, BTreeSet};

fn spec(id: &str, name: &str, crate_type: &str) -> CrateSpec {
    CrateSpec {
        crate_id: id.to_string(),
        display_name: name.to_string(),
        edition: "2021".to_string(),
        root_module: "lib.rs".to_string(),
        is_workspace_member: true,
        deps: BTreeSet::new(),
        proc_macro_dylib_path: None,
        source: None,
        cfg: Vec::new(),
        env: BTreeMap::new(),
        target: "x86_64-unknown-linux-gnu".to_string(),
        crate_type: crate_type.to_string(),
    }
}

fn strings(texts: &[&str]) -> Vec<String> {
    texts.iter().map(|text| text.to_string()).collect()
}

fn with_deps(mut spec: CrateSpec, deps: &[&str]) -> CrateSpec {
    spec.deps = strings(deps).into_iter().collect();
    spec
}

fn with_cfg(mut spec: CrateSpec, cfg: &[&str]) -> CrateSpec {
    spec.cfg = strings(cfg);
    spec
}

fn with_path(mut spec: CrateSpec, path: &str) -> CrateSpec {
    spec.proc_macro_dylib_path = Some(path.to_string());
    spec
}

fn merge(first: &CrateSpec, later: &CrateSpec) -> CrateSpec {
    let mut merged = first.clone();
    merged.merge(later.clone());
    merged
}

fn consolidate(specs: &[CrateSpec]) -> Vec<CrateSpec> {
    consolidate_crate_specs(specs.to_vec()).unwrap()
}

#[test]
fn merge_unites_dependencies() {
    let a = with_deps(spec("a", "a", "bin"), &["x", "y"]);
    let b = with_deps(spec("a", "a", "bin"), &["y", "z"]);
    assert_eq!(
        merge(&a, &b),
        with_deps(spec("a", "a", "bin"), &["x", "y", "z"])
    );
}

#[test]
fn merge_appends_new_cfgs_in_order() {
    let a = with_cfg(spec("a", "a", "bin"), &["x", "y"]);
    let b = with_cfg(spec("a", "a", "bin"), &["w", "y", "z", "x"]);
    assert_eq!(merge(&a, &b).cfg, strings(&["x", "y", "w", "z"]));
}

#[test]
fn merge_keeps_cfgs_that_a_spec_repeats_itself() {
    let a = with_cfg(spec("a", "a", "bin"), &["x", "x"]);
    let b = with_cfg(spec("a", "a", "bin"), &["y", "x", "y"]);
    assert_eq!(merge(&a, &b).cfg, strings(&["x", "x", "y", "y"]));
}

#[test]
fn distinct_cfgs_stay_distinct() {
    let specs = [
        with_cfg(spec("a", "a", "bin"), &["x", "y"]),
        with_cfg(spec("a", "a", "bin"), &["y", "z"]),
        with_cfg(spec("a", "a", "bin"), &["z", "x", "w"]),
    ];
    assert_eq!(consolidate(&specs)[0].cfg, strings(&["x", "y", "z", "w"]));
}

#[test]
fn merge_takes_name_and_type_of_a_library() {
    let test = spec("a", "a_test", "bin");
    let library = spec("a", "a", "rlib");
    assert_eq!(merge(&test, &library), library);
    assert_eq!(merge(&library, &test), library);
}

#[test]
fn last_of_two_libraries_names_the_crate() {
    let specs = [
        spec("a", "first", "rlib"),
        spec("a", "test", "bin"),
        spec("a", "last", "rlib"),
        spec("a", "other", "bin"),
    ];
    assert_eq!(consolidate(&specs), vec![spec("a", "last", "rlib")]);
}

#[test]
fn without_a_library_the_first_names_the_crate() {
    let specs = [spec("a", "first", "bin"), spec("a", "last", "proc-macro")];
    assert_eq!(consolidate(&specs), vec![spec("a", "first", "bin")]);
}

#[test]
fn only_an_exact_rlib_is_a_library() {
    let first = spec("a", "first", "bin");
    for crate_type in ["", "rli", "rlibs", "Rlib", "dylib"] {
        assert_eq!(merge(&first, &spec("a", "other", crate_type)), first);
    }
}

#[test]
fn without_an_optimized_path_the_first_path_stays() {
    let first = with_path(spec("a", "a", "proc-macro"), "k8-fastbuild/one.so");
    let later = with_path(spec("a", "a", "proc-macro"), "k8-fastbuild/two.so");
    assert_eq!(merge(&first, &later), first);
    let none = spec("a", "a", "proc-macro");
    assert_eq!(merge(&none, &later), none);
    assert_eq!(merge(&later, &none), later);
}

#[test]
fn last_optimized_path_is_taken() {
    let plain = with_path(spec("a", "a", "proc-macro"), "k8-fastbuild/m.so");
    let one = with_path(spec("a", "a", "proc-macro"), "k8-opt-exec-1/m.so");
    let two = with_path(spec("a", "a", "proc-macro"), "k8-opt-exec-2/m.so");
    assert_eq!(
        consolidate(&[one.clone(), plain.clone(), two.clone(), plain.clone()]),
        vec![two]
    );
    assert_eq!(consolidate(&[plain.clone(), one.clone()]), vec![one]);
}

#[test]
fn an_optimized_path_needs_the_whole_component() {
    let plain = with_path(spec("a", "a", "proc-macro"), "k8-fastbuild/m.so");
    for path in ["k8-opt-exec/m.so", "opt-exec-1/m.so", "k8-opt--exec-1/m.so"] {
        let other = with_path(spec("a", "a", "proc-macro"), path);
        assert_eq!(merge(&plain, &other), plain);
    }
}

#[test]
fn everything_else_stays_as_in_the_first_spec() {
    let mut first = spec("a", "a", "bin");
    first.env.insert("KEY".to_string(), "one".to_string());
    first.source = Some(CrateSpecSource {
        exclude_dirs: strings(&["out"]),
        include_dirs: strings(&["in"]),
    });
    let mut later = spec("a", "a", "bin");
    later.edition = "2018".to_string();
    later.root_module = "main.rs".to_string();
    later.is_workspace_member = false;
    later.env.insert("KEY".to_string(), "two".to_string());
    later.target = "wasm32-unknown-unknown".to_string();
    assert_eq!(merge(&first, &later), first);
}

/// Specs of one crate that differ in everything that a merge looks at.
fn assorted() -> Vec<CrateSpec> {
    vec![
        with_path(
            with_cfg(with_deps(spec("a", "one", "rlib"), &["x"]), &["c", "d"]),
            "k8-fastbuild/m.so",
        ),
        with_cfg(with_deps(spec("a", "two", "bin"), &["y"]), &["d", "e"]),
        with_path(
            with_cfg(spec("a", "three", "rlib"), &["e", "f", "c"]),
            "k8-opt-exec-1/m.so",
        ),
        with_path(
            with_deps(spec("a", "four", "proc-macro"), &["x", "z"]),
            "k8-opt-exec-2/m.so",
        ),
    ]
}

#[test]
fn merging_is_associative() {
    for three in assorted().into_iter().permutations(3) {
        assert_eq!(
            merge(&merge(&three[0], &three[1]), &three[2]),
            merge(&three[0], &merge(&three[1], &three[2]))
        );
    }
}

#[test]
fn merging_a_spec_into_itself_changes_nothing() {
    for spec in assorted() {
        assert_eq!(merge(&spec, &spec), spec);
    }
}

/// Specs of several crates, out of order.
fn several() -> Vec<CrateSpec> {
    let mut specs = assorted();
    specs.insert(1, with_deps(spec("b", "b", "bin"), &["a"]));
    specs.insert(3, with_cfg(spec("B", "upper", "rlib"), &["c"]));
    specs.push(with_deps(spec("b", "b_lib", "rlib"), &["c"]));
    specs.push(spec("", "nameless", "bin"));
    specs.push(spec("ab", "ab", "rlib"));
    specs
}

#[test]
fn each_crate_comes_out_once_and_sorted() {
    let ids: Vec<String> = consolidate(&several())
        .into_iter()
        .map(|spec| spec.crate_id)
        .collect();
    assert_eq!(ids, strings(&["", "B", "a", "ab", "b"]));
}

#[test]
fn consolidating_nothing_gives_nothing() {
    assert_eq!(consolidate(&[]), Vec::new());
}

#[test]
fn sorted_specs_of_different_crates_stay_as_they_are() {
    let specs = [
        spec("a", "a", "bin"),
        spec("ab", "ab", "rlib"),
        spec("b", "b", "bin"),
    ];
    assert_eq!(consolidate(&specs), specs.to_vec());
}

#[test]
fn consolidating_twice_changes_nothing() {
    let once = consolidate(&several());
    assert_eq!(consolidate(&once), once);
}

#[test]
fn batches_give_what_all_at_once_gives() {
    let specs = several();
    let all = consolidate(&specs);
    for split in 0..=specs.len() {
        let (front, back) = specs.split_at(split);
        let front_first = [consolidate(front), back.to_vec()].concat();
        let back_first = [front.to_vec(), consolidate(back)].concat();
        assert_eq!(consolidate(&front_first), all);
        assert_eq!(consolidate(&back_first), all);
    }
}

#[test]
fn order_keeps_crates_dependencies_and_libraries() {
    let expected = consolidate(&assorted());
    for perm in assorted().into_iter().permutations(4) {
        let out = consolidate(&perm);
        assert_eq!(out.len(), expected.len());
        assert_eq!(out[0].crate_id, expected[0].crate_id);
        assert_eq!(out[0].deps, expected[0].deps);
        assert_eq!(out[0].crate_type, "rlib");
        let cfgs: BTreeSet<String> = out[0].cfg.iter().cloned().collect();
        assert_eq!(cfgs.into_iter().collect::<Vec<_>>(), strings(&["c", "d", "e", "f"]));
        assert!(out[0]
            .proc_macro_dylib_path
            .as_ref()
            .unwrap()
            .contains("-opt-exec-"));
    }
}

#[test]
fn order_and_repetition_do_not_matter_where_specs_agree() {
    let specs = vec![
        with_deps(spec("a", "a_test", "bin"), &["x"]),
        with_deps(spec("a", "a", "rlib"), &["y"]),
        with_deps(spec("a", "a_main", "bin"), &["z"]),
        spec("b", "b", "bin"),
        spec("b", "b", "bin"),
    ];
    let expected = vec![
        with_deps(spec("a", "a", "rlib"), &["x", "y", "z"]),
        spec("b", "b", "bin"),
    ];
    for perm in specs.into_iter().permutations(5) {
        assert_eq!(consolidate(&perm), expected);
    }
}
