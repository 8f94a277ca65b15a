//! Crate specs out of the output of `bazel aquery`.
use aquery::output::find_label;
use aquery::{
    decode_stdout, parse_aquery_output, undecodable_output, Action, AqueryError, AqueryOutput,
    CrateSpec, JsonKind, Target,
};
use std::collections::{BTreeMap, BTreeSet};

fn spec(id: &str) -> CrateSpec {
    CrateSpec {
        crate_id: id.to_string(),
        display_name: id.to_string(),
        edition: "2021".to_string(),
        root_module: "lib.rs".to_string(),
        is_workspace_member: false,
        deps: BTreeSet::new(),
        proc_macro_dylib_path: None,
        source: None,
        cfg: Vec::new(),
        env: BTreeMap::new(),
        target: "x86_64-unknown-linux-gnu".to_string(),
        crate_type: "rlib".to_string(),
    }
}

fn decoded(target_id: u32, id: &str) -> Action {
    Action {
        target_id,
        crate_spec: Ok(spec(id)),
    }
}

fn failed(target_id: u32, cause: &str) -> Action {
    Action {
        target_id,
        crate_spec: Err(cause.to_string()),
    }
}

fn target(id: u32, label: &str) -> Target {
    Target {
        id,
        label: label.to_string(),
    }
}

#[test]
fn specs_come_out_in_the_order_of_their_actions() {
    let out = AqueryOutput {
        actions: vec![decoded(2, "b"), decoded(1, "a"), decoded(2, "b")],
        targets: vec![target(1, "//:a"), target(2, "//:b")],
    };
    assert!(out.has_labelled_failure());
    assert_eq!(
        parse_aquery_output("", Some(out)),
        Ok(vec![spec("b"), spec("a"), spec("b")])
    );
}

#[test]
fn no_actions_give_no_specs() {
    let out = AqueryOutput {
        actions: Vec::new(),
        targets: Vec::new(),
    };
    assert!(out.has_labelled_failure());
    assert_eq!(parse_aquery_output("", Some(out)), Ok(Vec::new()));
}

#[test]
fn targets_need_no_label_where_all_specs_decode() {
    let out = AqueryOutput {
        actions: vec![decoded(7, "a")],
        targets: Vec::new(),
    };
    assert!(out.has_labelled_failure());
    assert_eq!(parse_aquery_output("", Some(out)), Ok(vec![spec("a")]));
}

#[test]
fn first_failure_decides_the_error() {
    let out = AqueryOutput {
        actions: vec![
            decoded(1, "a"),
            failed(2, "missing field"),
            failed(3, "unknown field"),
        ],
        targets: vec![target(1, "//:a"), target(2, "//:b")],
    };
    assert!(out.has_labelled_failure());
    let error = parse_aquery_output("", Some(out)).unwrap_err();
    assert_eq!(
        error,
        AqueryError::InvalidCrateSpec {
            label: "//:b".to_string(),
            cause: "missing field".to_string(),
        }
    );
    assert_eq!(
        error.message(),
        "Failed to deserialize crate_spec for target //:b"
    );
}

#[test]
fn a_failure_without_a_listed_target_has_no_label() {
    let out = AqueryOutput {
        actions: vec![failed(3, "missing field")],
        targets: vec![target(1, "//:a")],
    };
    assert!(!out.has_labelled_failure());
}

#[test]
fn last_target_with_an_id_gives_the_label() {
    let targets = vec![target(1, "//:old"), target(2, "//:b"), target(1, "//:new")];
    assert_eq!(find_label(&targets, 1), Some("//:new".to_string()));
    assert_eq!(find_label(&targets, 2), Some("//:b".to_string()));
    assert_eq!(find_label(&targets, 3), None);
}

#[test]
fn an_object_without_actions_is_an_empty_result() {
    for text in ["{}", " { \"actions\": [] }\n", "{\"a\":{\"b\":null}}"] {
        let error = parse_aquery_output(text, None).unwrap_err();
        assert_eq!(error, AqueryError::EmptyResult);
        assert_eq!(
            error.message(),
            "Aquery returned an empty result, are there any Rust targets in the specified paths?."
        );
    }
}

#[test]
fn anything_but_an_object_is_not_the_expected_json() {
    for text in [
        "", "{", "{} {}", "oops", "null", "true", "1", "\"{}\"", "[{}]",
    ] {
        let error = parse_aquery_output(text, None).unwrap_err();
        assert_eq!(error, AqueryError::InvalidJson);
        assert_eq!(error.message(), "Failed to parse aquery output as JSON");
    }
}

#[test]
fn kind_of_json_decides_the_error() {
    assert_eq!(
        undecodable_output(Some(JsonKind::Object)),
        AqueryError::EmptyResult
    );
    for kind in [
        JsonKind::Null,
        JsonKind::Bool,
        JsonKind::Number,
        JsonKind::String,
        JsonKind::Array,
    ] {
        assert_eq!(undecodable_output(Some(kind)), AqueryError::InvalidJson);
    }
    assert_eq!(undecodable_output(None), AqueryError::InvalidJson);
}

#[test]
fn stdout_is_utf8() {
    assert_eq!(decode_stdout(Vec::new()), Ok(String::new()));
    assert_eq!(
        decode_stdout(vec![0x7b, 0xc3, 0xa9, 0x7d]),
        Ok("{\u{e9}}".to_string())
    );
}

#[test]
fn stdout_that_is_not_utf8_is_refused() {
    let error = decode_stdout(vec![0x7b, 0xff, 0x7d]).unwrap_err();
    assert_eq!(
        error,
        AqueryError::InvalidUtf8 {
            cause: "invalid utf-8 sequence of 1 bytes from index 1".to_string(),
        }
    );
    assert_eq!(
        error.message(),
        "invalid utf-8 sequence of 1 bytes from index 1"
    );
    assert_eq!(
        decode_stdout(vec![0x7b, 0xc3]).unwrap_err().message(),
        "incomplete utf-8 byte sequence from index 1"
    );
}
