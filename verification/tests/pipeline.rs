//! From the output of `bazel aquery` to one crate spec per crate.
use aquery::{
    crate_specs_of_output, Action, AqueryError, AqueryOutput, CrateSpec, Target,
};
use std::collections::{BTreeMap, BTreeSet};

fn spec(id: &str, name: &str, crate_type: &str, deps: &[&str]) -> CrateSpec {
    CrateSpec {
        crate_id: id.to_string(),
        display_name: name.to_string(),
        edition: "2021".to_string(),
        root_module: "lib.rs".to_string(),
        is_workspace_member: true,
        deps: deps.iter().map(|dep| dep.to_string()).collect::<BTreeSet<_>>(),
        proc_macro_dylib_path: None,
        source: None,
        cfg: Vec::new(),
        env: BTreeMap::new(),
        target: "x86_64-unknown-linux-gnu".to_string(),
        crate_type: crate_type.to_string(),
    }
}

fn output(crate_specs: Vec<Result<CrateSpec, String>>) -> AqueryOutput {
    AqueryOutput {
        actions: crate_specs
            .into_iter()
            .map(|crate_spec| Action {
                target_id: 1,
                crate_spec,
            })
            .collect(),
        targets: vec![Target {
            id: 1,
            label: "//:a".to_string(),
        }],
    }
}

#[test]
fn decoded_specs_come_out_consolidated() {
    let out = output(vec![
        Ok(spec("b", "b", "rlib", &["a"])),
        Ok(spec("a", "a_test", "bin", &["x"])),
        Ok(spec("a", "a", "rlib", &["y"])),
    ]);
    assert_eq!(
        crate_specs_of_output("", Some(out)),
        Ok(vec![
            spec("a", "a", "rlib", &["x", "y"]),
            spec("b", "b", "rlib", &["a"]),
        ])
    );
}

#[test]
fn no_actions_give_no_crates() {
    assert_eq!(
        crate_specs_of_output("", Some(output(Vec::new()))),
        Ok(Vec::new())
    );
}

#[test]
fn a_spec_that_does_not_decode_refuses_the_whole_output() {
    let out = output(vec![
        Ok(spec("a", "a", "rlib", &[])),
        Err("missing field".to_string()),
        Ok(spec("a", "a", "rlib", &[])),
    ]);
    assert_eq!(
        crate_specs_of_output("", Some(out)),
        Err(AqueryError::InvalidCrateSpec {
            label: "//:a".to_string(),
            cause: "missing field".to_string(),
        })
    );
}

#[test]
fn an_output_that_does_not_decode_is_told_apart_by_its_json() {
    assert_eq!(
        crate_specs_of_output("{}", None),
        Err(AqueryError::EmptyResult)
    );
    assert_eq!(
        crate_specs_of_output("[]", None),
        Err(AqueryError::InvalidJson)
    );
    assert_eq!(
        crate_specs_of_output("", None),
        Err(AqueryError::InvalidJson)
    );
}

#[test]
fn the_same_output_gives_the_same_result() {
    let specs = vec![
        Ok(spec("b", "b", "bin", &["x"])),
        Ok(spec("a", "a", "bin", &[])),
        Ok(spec("b", "c", "bin", &["y"])),
    ];
    assert_eq!(
        crate_specs_of_output("", Some(output(specs.clone()))),
        crate_specs_of_output("", Some(output(specs)))
    );
}
