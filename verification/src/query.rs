//! The `bazel aquery` command line.
use crate::text::{joined, joined_lists, texts};
use vstd::prelude::*;
use vstd::string::StringExecFns;

verus! {

/// The query expression for a target and everything it depends on.
pub open spec fn deps_expression(target: Seq<char>) -> Seq<char> {
    "deps("@ + target + ")"@
}

/// The query expression for all of `targets` and everything they depend on.
pub open spec fn pattern_text(targets: Seq<Seq<char>>) -> Seq<char> {
    joined(Seq::new(targets.len(), |i: int| deps_expression(targets[i])), "+"@)
}

/// The arguments to `bazel`, in order.
pub open spec fn argument_texts(
    additional_bazel_flags: Seq<Seq<char>>,
    targets: Seq<Seq<char>>,
    rules_rust_name: Seq<char>,
) -> Seq<Seq<char>> {
    seq![
        "aquery"@,
        "--noinclude_commandline"@,
        "--noinclude_artifacts"@,
        "--include_aspects"@,
        "--include_file_write_contents"@,
        "--aspects="@ + rules_rust_name + "//rust:defs.bzl%rust_analyzer_aspect"@,
        "--output_groups=rust_analyzer_crate_spec"@,
        "outputs(\".*[.]rust_analyzer_crate_spec\","@ + pattern_text(targets) + ")"@,
        "--output=jsonproto"@,
    ] + additional_bazel_flags
}

/// Without targets the query expression is empty, and with one it asks for what that
/// target depends on.
pub proof fn pattern_of_none_or_one(target: Seq<char>)
    ensures
        pattern_text(Seq::empty()).len() == 0,
        pattern_text(seq![target]) == "deps("@ + target + ")"@,
{
    assert(Seq::new(1, |i: int| deps_expression(seq![target][i])) =~= seq![
        deps_expression(target),
    ]);
}

/// Asking for two lists of targets is asking for both, with a `+` between.
pub proof fn pattern_of_lists(a: Seq<Seq<char>>, b: Seq<Seq<char>>)
    requires
        a.len() > 0,
        b.len() > 0,
    ensures
        pattern_text(a + b) == pattern_text(a) + "+"@ + pattern_text(b),
{
    let left = Seq::new(a.len(), |i: int| deps_expression(a[i]));
    let right = Seq::new(b.len(), |i: int| deps_expression(b[i]));
    assert(Seq::new((a + b).len(), |i: int| deps_expression((a + b)[i])) =~= left + right);
    joined_lists(left, right, "+"@);
}

/// The arguments are the nine that ask for the crate specs, each as it stands here, and
/// then the further flags, unchanged.
pub proof fn arguments_in_order(
    arguments: Seq<String>,
    flags: Seq<String>,
    targets: Seq<String>,
    name: Seq<char>,
)
    requires
        texts(arguments) == argument_texts(texts(flags), texts(targets), name),
    ensures
        arguments.len() == 9 + flags.len(),
        arguments[0]@ == "aquery"@,
        arguments[1]@ == "--noinclude_commandline"@,
        arguments[2]@ == "--noinclude_artifacts"@,
        arguments[3]@ == "--include_aspects"@,
        arguments[4]@ == "--include_file_write_contents"@,
        arguments[5]@ == "--aspects="@ + name
            + "//rust:defs.bzl%rust_analyzer_aspect"@,
        arguments[6]@ == "--output_groups=rust_analyzer_crate_spec"@,
        arguments[7]@ == "outputs(\".*[.]rust_analyzer_crate_spec\","@ + pattern_text(
            texts(targets),
        ) + ")"@,
        arguments[8]@ == "--output=jsonproto"@,
        forall|i: int|
            0 <= i < flags.len() ==> arguments[9 + i]@ == #[trigger] flags[i]@,
{
    let all = texts(arguments);
    assert(arguments.len() == all.len());
    assert(forall|i: int| 0 <= i < arguments.len() ==> #[trigger] arguments[i]@ == all[i]);
}

/// The arguments tell apart every two names of the rules repository, every two lists of
/// further flags, and every two query expressions.
pub proof fn arguments_tell_requests_apart(
    flags: Seq<Seq<char>>,
    targets: Seq<Seq<char>>,
    name: Seq<char>,
    other_flags: Seq<Seq<char>>,
    other_targets: Seq<Seq<char>>,
    other_name: Seq<char>,
)
    requires
        argument_texts(flags, targets, name) == argument_texts(
            other_flags,
            other_targets,
            other_name,
        ),
    ensures
        flags == other_flags,
        name == other_name,
        pattern_text(targets) == pattern_text(other_targets),
{
    let a = argument_texts(flags, targets, name);
    let b = argument_texts(other_flags, other_targets, other_name);
    assert(a[5] == b[5]);
    assert(a[7] == b[7]);
    lemma_same_middle(
        "--aspects="@,
        name,
        other_name,
        "//rust:defs.bzl%rust_analyzer_aspect"@,
    );
    lemma_same_middle(
        "outputs(\".*[.]rust_analyzer_crate_spec\","@,
        pattern_text(targets),
        pattern_text(other_targets),
        ")"@,
    );
    assert(flags =~= a.skip(9));
}

/// Texts that are equal once wrapped in the same prefix and suffix are equal.
proof fn lemma_same_middle(prefix: Seq<char>, a: Seq<char>, b: Seq<char>, suffix: Seq<char>)
    requires
        prefix + a + suffix == prefix + b + suffix,
    ensures
        a == b,
{
    let whole = prefix + a + suffix;
    assert(a =~= whole.subrange(prefix.len() as int, whole.len() - suffix.len()));
}

/// `prefix`, then `middle`, then `suffix`.
fn wrap(prefix: &str, middle: &str, suffix: &str) -> (text: String)
    ensures
        text@ == prefix@ + middle@ + suffix@,
{
    let mut text = prefix.to_string();
    text.append(middle);
    text.append(suffix);
    text
}

/// The query expression for all of `targets` and everything they depend on:
/// `deps(..)` of each, joined by `+`.
pub fn target_pattern(targets: &[String]) -> (pattern: String)
    ensures
        pattern@ == pattern_text(texts(targets@)),
        targets@.len() == 0 ==> pattern@.len() == 0,
        targets@.len() == 1 ==> pattern@ == "deps("@ + targets@[0]@ + ")"@,
{
    let ghost all = texts(targets@);
    let ghost parts = Seq::new(all.len(), |i: int| deps_expression(all[i]));
    let mut pattern = String::new();
    let mut i: usize = 0;
    while i < targets.len()
        invariant
            all == texts(targets@),
            parts == Seq::new(all.len(), |i: int| deps_expression(all[i])),
            0 <= i <= targets.len(),
            pattern@ == joined(parts.take(i as int), "+"@),
        decreases targets.len() - i,
    {
        let expression = wrap("deps(", targets[i].as_str(), ")");
        proof {
            let next = parts.take(i + 1);
            assert(next.drop_last() =~= parts.take(i as int));
        }
        if i > 0 {
            pattern.append("+");
        }
        pattern.append(expression.as_str());
        i = i + 1;
    }
    assert(parts.take(all.len() as int) =~= parts);
    pattern
}

/// The arguments with which to run `bazel`, so that it prints, as JSON, the crate
/// specs of `targets` and everything they depend on.
pub fn aquery_arguments(
    additional_bazel_flags: &[String],
    targets: &[String],
    rules_rust_name: &str,
) -> (arguments: Vec<String>)
    ensures
        texts(arguments@) == argument_texts(
            texts(additional_bazel_flags@),
            texts(targets@),
            rules_rust_name@,
        ),
        arguments@.len() == 9 + additional_bazel_flags@.len(),
        arguments@[0]@ == "aquery"@,
        arguments@[1]@ == "--noinclude_commandline"@,
        arguments@[2]@ == "--noinclude_artifacts"@,
        arguments@[3]@ == "--include_aspects"@,
        arguments@[4]@ == "--include_file_write_contents"@,
        arguments@[5]@ == "--aspects="@ + rules_rust_name@
            + "//rust:defs.bzl%rust_analyzer_aspect"@,
        arguments@[6]@ == "--output_groups=rust_analyzer_crate_spec"@,
        arguments@[7]@ == "outputs(\".*[.]rust_analyzer_crate_spec\","@ + pattern_text(
            texts(targets@),
        ) + ")"@,
        arguments@[8]@ == "--output=jsonproto"@,
        forall|i: int|
            0 <= i < additional_bazel_flags@.len() ==> arguments@[9 + i]@
                == #[trigger] additional_bazel_flags@[i]@,
{
    let pattern = target_pattern(targets);
    let mut arguments: Vec<String> = Vec::new();
    arguments.push("aquery".to_string());
    arguments.push("--noinclude_commandline".to_string());
    arguments.push("--noinclude_artifacts".to_string());
    arguments.push("--include_aspects".to_string());
    arguments.push("--include_file_write_contents".to_string());
    arguments.push(
        wrap("--aspects=", rules_rust_name, "//rust:defs.bzl%rust_analyzer_aspect"),
    );
    arguments.push("--output_groups=rust_analyzer_crate_spec".to_string());
    arguments.push(
        wrap("outputs(\".*[.]rust_analyzer_crate_spec\",", pattern.as_str(), ")"),
    );
    arguments.push("--output=jsonproto".to_string());
    let ghost fixed = argument_texts(Seq::empty(), texts(targets@), rules_rust_name@);
    let ghost flags = texts(additional_bazel_flags@);
    let mut i: usize = 0;
    while i < additional_bazel_flags.len()
        invariant
            flags == texts(additional_bazel_flags@),
            0 <= i <= additional_bazel_flags.len(),
            texts(arguments@) == fixed + flags.take(i as int),
        decreases additional_bazel_flags.len() - i,
    {
        let ghost before = arguments@;
        arguments.push(additional_bazel_flags[i].clone());
        assert(texts(arguments@) =~= texts(before).push(flags[i as int]));
        i = i + 1;
    }
    proof {
        assert(texts(arguments@) =~= argument_texts(flags, texts(targets@), rules_rust_name@));
        arguments_in_order(arguments@, additional_bazel_flags@, targets@, rules_rust_name@);
    }
    arguments
}

} // verus!
