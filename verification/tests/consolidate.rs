//! Consolidation of the specs that Bazel gives for common kinds of targets.
use aquery::{consolidate_crate_specs, CrateSpec};
use itertools::Itertools;
use std::collections::{BTreeMap, BTreeSet};

/// The specs in their own order, each once.
fn listed(specs: BTreeSet<CrateSpec>) -> Vec<CrateSpec> {
    specs.into_iter().collect()
}

#[test]
fn consolidate_lib_then_test_specs() {
    let crate_specs = vec![
        CrateSpec {
            crate_id: "ID-mylib.rs".into(),
            display_name: "mylib".into(),
            edition: "2018".into(),
            root_module: "mylib.rs".into(),
            is_workspace_member: true,
            deps: BTreeSet::from(["ID-lib_dep.rs".into()]),
            proc_macro_dylib_path: None,
            source: None,
            cfg: vec!["test".into(), "debug_assertions".into()],
            env: BTreeMap::new(),
            target: "x86_64-unknown-linux-gnu".into(),
            crate_type: "rlib".into(),
        },
        CrateSpec {
            crate_id: "ID-extra_test_dep.rs".into(),
            display_name: "extra_test_dep".into(),
            edition: "2018".into(),
            root_module: "extra_test_dep.rs".into(),
            is_workspace_member: true,
            deps: BTreeSet::new(),
            proc_macro_dylib_path: None,
            source: None,
            cfg: vec!["test".into(), "debug_assertions".into()],
            env: BTreeMap::new(),
            target: "x86_64-unknown-linux-gnu".into(),
            crate_type: "rlib".into(),
        },
        CrateSpec {
            crate_id: "ID-lib_dep.rs".into(),
            display_name: "lib_dep".into(),
            edition: "2018".into(),
            root_module: "lib_dep.rs".into(),
            is_workspace_member: true,
            deps: BTreeSet::new(),
            proc_macro_dylib_path: None,
            source: None,
            cfg: vec!["test".into(), "debug_assertions".into()],
            env: BTreeMap::new(),
            target: "x86_64-unknown-linux-gnu".into(),
            crate_type: "rlib".into(),
        },
        CrateSpec {
            crate_id: "ID-mylib.rs".into(),
            display_name: "mylib_test".into(),
            edition: "2018".into(),
            root_module: "mylib.rs".into(),
            is_workspace_member: true,
            deps: BTreeSet::from(["ID-extra_test_dep.rs".into()]),
            proc_macro_dylib_path: None,
            source: None,
            cfg: vec!["test".into(), "debug_assertions".into()],
            env: BTreeMap::new(),
            target: "x86_64-unknown-linux-gnu".into(),
            crate_type: "bin".into(),
        },
    ];

    assert_eq!(
        consolidate_crate_specs(crate_specs).unwrap(),
        listed(BTreeSet::from([
            CrateSpec {
                crate_id: "ID-mylib.rs".into(),
                display_name: "mylib".into(),
                edition: "2018".into(),
                root_module: "mylib.rs".into(),
                is_workspace_member: true,
                deps: BTreeSet::from(["ID-lib_dep.rs".into(), "ID-extra_test_dep.rs".into()]),
                proc_macro_dylib_path: None,
                source: None,
                cfg: vec!["test".into(), "debug_assertions".into()],
                env: BTreeMap::new(),
                target: "x86_64-unknown-linux-gnu".into(),
                crate_type: "rlib".into(),
            },
            CrateSpec {
                crate_id: "ID-extra_test_dep.rs".into(),
                display_name: "extra_test_dep".into(),
                edition: "2018".into(),
                root_module: "extra_test_dep.rs".into(),
                is_workspace_member: true,
                deps: BTreeSet::new(),
                proc_macro_dylib_path: None,
                source: None,
                cfg: vec!["test".into(), "debug_assertions".into()],
                env: BTreeMap::new(),
                target: "x86_64-unknown-linux-gnu".into(),
                crate_type: "rlib".into(),
            },
            CrateSpec {
                crate_id: "ID-lib_dep.rs".into(),
                display_name: "lib_dep".into(),
                edition: "2018".into(),
                root_module: "lib_dep.rs".into(),
                is_workspace_member: true,
                deps: BTreeSet::new(),
                proc_macro_dylib_path: None,
                source: None,
                cfg: vec!["test".into(), "debug_assertions".into()],
                env: BTreeMap::new(),
                target: "x86_64-unknown-linux-gnu".into(),
                crate_type: "rlib".into(),
            },
        ]))
    );
}

#[test]
fn consolidate_test_then_lib_specs() {
    let crate_specs = vec![
        CrateSpec {
            crate_id: "ID-mylib.rs".into(),
            display_name: "mylib_test".into(),
            edition: "2018".into(),
            root_module: "mylib.rs".into(),
            is_workspace_member: true,
            deps: BTreeSet::from(["ID-extra_test_dep.rs".into()]),
            proc_macro_dylib_path: None,
            source: None,
            cfg: vec!["test".into(), "debug_assertions".into()],
            env: BTreeMap::new(),
            target: "x86_64-unknown-linux-gnu".into(),
            crate_type: "bin".into(),
        },
        CrateSpec {
            crate_id: "ID-mylib.rs".into(),
            display_name: "mylib".into(),
            edition: "2018".into(),
            root_module: "mylib.rs".into(),
            is_workspace_member: true,
            deps: BTreeSet::from(["ID-lib_dep.rs".into()]),
            proc_macro_dylib_path: None,
            source: None,
            cfg: vec!["test".into(), "debug_assertions".into()],
            env: BTreeMap::new(),
            target: "x86_64-unknown-linux-gnu".into(),
            crate_type: "rlib".into(),
        },
        CrateSpec {
            crate_id: "ID-extra_test_dep.rs".into(),
            display_name: "extra_test_dep".into(),
            edition: "2018".into(),
            root_module: "extra_test_dep.rs".into(),
            is_workspace_member: true,
            deps: BTreeSet::new(),
            proc_macro_dylib_path: None,
            source: None,
            cfg: vec!["test".into(), "debug_assertions".into()],
            env: BTreeMap::new(),
            target: "x86_64-unknown-linux-gnu".into(),
            crate_type: "rlib".into(),
        },
        CrateSpec {
            crate_id: "ID-lib_dep.rs".into(),
            display_name: "lib_dep".into(),
            edition: "2018".into(),
            root_module: "lib_dep.rs".into(),
            is_workspace_member: true,
            deps: BTreeSet::new(),
            proc_macro_dylib_path: None,
            source: None,
            cfg: vec!["test".into(), "debug_assertions".into()],
            env: BTreeMap::new(),
            target: "x86_64-unknown-linux-gnu".into(),
            crate_type: "rlib".into(),
        },
    ];

    assert_eq!(
        consolidate_crate_specs(crate_specs).unwrap(),
        listed(BTreeSet::from([
            CrateSpec {
                crate_id: "ID-mylib.rs".into(),
                display_name: "mylib".into(),
                edition: "2018".into(),
                root_module: "mylib.rs".into(),
                is_workspace_member: true,
                deps: BTreeSet::from(["ID-lib_dep.rs".into(), "ID-extra_test_dep.rs".into()]),
                proc_macro_dylib_path: None,
                source: None,
                cfg: vec!["test".into(), "debug_assertions".into()],
                env: BTreeMap::new(),
                target: "x86_64-unknown-linux-gnu".into(),
                crate_type: "rlib".into(),
            },
            CrateSpec {
                crate_id: "ID-extra_test_dep.rs".into(),
                display_name: "extra_test_dep".into(),
                edition: "2018".into(),
                root_module: "extra_test_dep.rs".into(),
                is_workspace_member: true,
                deps: BTreeSet::new(),
                proc_macro_dylib_path: None,
                source: None,
                cfg: vec!["test".into(), "debug_assertions".into()],
                env: BTreeMap::new(),
                target: "x86_64-unknown-linux-gnu".into(),
                crate_type: "rlib".into(),
            },
            CrateSpec {
                crate_id: "ID-lib_dep.rs".into(),
                display_name: "lib_dep".into(),
                edition: "2018".into(),
                root_module: "lib_dep.rs".into(),
                is_workspace_member: true,
                deps: BTreeSet::new(),
                proc_macro_dylib_path: None,
                source: None,
                cfg: vec!["test".into(), "debug_assertions".into()],
                env: BTreeMap::new(),
                target: "x86_64-unknown-linux-gnu".into(),
                crate_type: "rlib".into(),
            },
        ]))
    );
}

#[test]
fn consolidate_lib_test_main_specs() {
    // mylib.rs is a library but has tests and an entry point, and mylib2.rs
    // depends on mylib.rs. The display_name of the library target mylib.rs
    // should be "mylib" no matter what order the crate specs is in.
    // Otherwise Rust Analyzer will not be able to resolve references to
    // mylib in mylib2.rs.
    let crate_specs = vec![
        CrateSpec {
            crate_id: "ID-mylib.rs".into(),
            display_name: "mylib".into(),
            edition: "2018".into(),
            root_module: "mylib.rs".into(),
            is_workspace_member: true,
            deps: BTreeSet::new(),
            proc_macro_dylib_path: None,
            source: None,
            cfg: vec!["test".into(), "debug_assertions".into()],
            env: BTreeMap::new(),
            target: "x86_64-unknown-linux-gnu".into(),
            crate_type: "rlib".into(),
        },
        CrateSpec {
            crate_id: "ID-mylib.rs".into(),
            display_name: "mylib_test".into(),
            edition: "2018".into(),
            root_module: "mylib.rs".into(),
            is_workspace_member: true,
            deps: BTreeSet::new(),
            proc_macro_dylib_path: None,
            source: None,
            cfg: vec!["test".into(), "debug_assertions".into()],
            env: BTreeMap::new(),
            target: "x86_64-unknown-linux-gnu".into(),
            crate_type: "bin".into(),
        },
        CrateSpec {
            crate_id: "ID-mylib.rs".into(),
            display_name: "mylib_main".into(),
            edition: "2018".into(),
            root_module: "mylib.rs".into(),
            is_workspace_member: true,
            deps: BTreeSet::new(),
            proc_macro_dylib_path: None,
            source: None,
            cfg: vec!["test".into(), "debug_assertions".into()],
            env: BTreeMap::new(),
            target: "x86_64-unknown-linux-gnu".into(),
            crate_type: "bin".into(),
        },
        CrateSpec {
            crate_id: "ID-mylib2.rs".into(),
            display_name: "mylib2".into(),
            edition: "2018".into(),
            root_module: "mylib2.rs".into(),
            is_workspace_member: true,
            deps: BTreeSet::from(["ID-mylib.rs".into()]),
            proc_macro_dylib_path: None,
            source: None,
            cfg: vec!["test".into(), "debug_assertions".into()],
            env: BTreeMap::new(),
            target: "x86_64-unknown-linux-gnu".into(),
            crate_type: "rlib".into(),
        },
    ];

    for perm in crate_specs.into_iter().permutations(4) {
        assert_eq!(
            consolidate_crate_specs(perm).unwrap(),
            listed(BTreeSet::from([
                CrateSpec {
                    crate_id: "ID-mylib.rs".into(),
                    display_name: "mylib".into(),
                    edition: "2018".into(),
                    root_module: "mylib.rs".into(),
                    is_workspace_member: true,
                    deps: BTreeSet::from([]),
                    proc_macro_dylib_path: None,
                    source: None,
                    cfg: vec!["test".into(), "debug_assertions".into()],
                    env: BTreeMap::new(),
                    target: "x86_64-unknown-linux-gnu".into(),
                    crate_type: "rlib".into(),
                },
                CrateSpec {
                    crate_id: "ID-mylib2.rs".into(),
                    display_name: "mylib2".into(),
                    edition: "2018".into(),
                    root_module: "mylib2.rs".into(),
                    is_workspace_member: true,
                    deps: BTreeSet::from(["ID-mylib.rs".into()]),
                    proc_macro_dylib_path: None,
                    source: None,
                    cfg: vec!["test".into(), "debug_assertions".into()],
                    env: BTreeMap::new(),
                    target: "x86_64-unknown-linux-gnu".into(),
                    crate_type: "rlib".into(),
                },
            ]))
        );
    }
}

#[test]
fn consolidate_proc_macro_prefer_exec() {
    // proc macro crates should prefer the -opt-exec- path which is always generated
    // during builds where it is used, while the fastbuild version would only be built
    // when explicitly building that target.
    let crate_specs = vec![
        CrateSpec {
            crate_id: "ID-myproc_macro.rs".into(),
            display_name: "myproc_macro".into(),
            edition: "2018".into(),
            root_module: "myproc_macro.rs".into(),
            is_workspace_member: true,
            deps: BTreeSet::new(),
            proc_macro_dylib_path: Some(
                "bazel-out/k8-opt-exec-F005BA11/bin/myproc_macro/libmyproc_macro-12345.so"
                    .into(),
            ),
            source: None,
            cfg: vec!["test".into(), "debug_assertions".into()],
            env: BTreeMap::new(),
            target: "x86_64-unknown-linux-gnu".into(),
            crate_type: "proc_macro".into(),
        },
        CrateSpec {
            crate_id: "ID-myproc_macro.rs".into(),
            display_name: "myproc_macro".into(),
            edition: "2018".into(),
            root_module: "myproc_macro.rs".into(),
            is_workspace_member: true,
            deps: BTreeSet::new(),
            proc_macro_dylib_path: Some(
                "bazel-out/k8-fastbuild/bin/myproc_macro/libmyproc_macro-12345.so".into(),
            ),
            source: None,
            cfg: vec!["test".into(), "debug_assertions".into()],
            env: BTreeMap::new(),
            target: "x86_64-unknown-linux-gnu".into(),
            crate_type: "proc_macro".into(),
        },
    ];

    for perm in crate_specs.into_iter().permutations(2) {
        assert_eq!(
            consolidate_crate_specs(perm).unwrap(),
            listed(BTreeSet::from([CrateSpec {
                crate_id: "ID-myproc_macro.rs".into(),
                display_name: "myproc_macro".into(),
                edition: "2018".into(),
                root_module: "myproc_macro.rs".into(),
                is_workspace_member: true,
                deps: BTreeSet::new(),
                proc_macro_dylib_path: Some(
                    "bazel-out/k8-opt-exec-F005BA11/bin/myproc_macro/libmyproc_macro-12345.so"
                        .into()
                ),
                source: None,
                cfg: vec!["test".into(), "debug_assertions".into()],
                env: BTreeMap::new(),
                target: "x86_64-unknown-linux-gnu".into(),
                crate_type: "proc_macro".into(),
            },]))
        );
    }
}
