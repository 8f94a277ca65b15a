//! The `bazel aquery` command line.
use aquery::{aquery_arguments, target_pattern};

fn strings(texts: &[&str]) -> Vec<String> {
    texts.iter().map(|text| text.to_string()).collect()
}

#[test]
fn pattern_joins_the_dependencies_of_all_targets() {
    assert_eq!(target_pattern(&[]), "");
    assert_eq!(target_pattern(&strings(&["//a:b"])), "deps(//a:b)");
    assert_eq!(
        target_pattern(&strings(&["//...", "@x//y", ""])),
        "deps(//...)+deps(@x//y)+deps()"
    );
}

#[test]
fn arguments_ask_for_crate_specs_as_json() {
    assert_eq!(
        aquery_arguments(
            &strings(&["--config=ci", "--verbose_failures"]),
            &strings(&["//a", "//b"]),
            "@rules_rust"
        ),
        strings(&[
            "aquery",
            "--noinclude_commandline",
            "--noinclude_artifacts",
            "--include_aspects",
            "--include_file_write_contents",
            "--aspects=@rules_rust//rust:defs.bzl%rust_analyzer_aspect",
            "--output_groups=rust_analyzer_crate_spec",
            r#"outputs(".*[.]rust_analyzer_crate_spec",deps(//a)+deps(//b))"#,
            "--output=jsonproto",
            "--config=ci",
            "--verbose_failures",
        ])
    );
}

#[test]
fn arguments_without_flags_end_with_the_output_format() {
    let arguments = aquery_arguments(&[], &strings(&["//a"]), "");
    assert_eq!(arguments.len(), 9);
    assert_eq!(
        arguments[5],
        "--aspects=//rust:defs.bzl%rust_analyzer_aspect"
    );
    assert_eq!(arguments[8], "--output=jsonproto");
}
