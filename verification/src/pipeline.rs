//! From the output of `bazel aquery` to one crate spec per crate.
use crate::consolidate::{consolidate_crate_specs, is_consolidation, merged, specs_of};
use crate::crate_spec::{models, CrateSpec, CrateSpecModel};
use crate::error::AqueryError;
use crate::fields::{each_crate_listed, entries_sorted, no_other_crate_listed};
use crate::laws::consolidation_unique;
use crate::output::{
    all_decoded, all_decoded_or_first_failure, first_failure_comes_out, json_kind_of,
    parse_aquery_output, undecodable_error, AqueryOutput, JsonKind,
};
use crate::text::text_less;
use vstd::prelude::*;

verus! {

/// The crate specs that the actions of `out` decode to, in order.
pub open spec fn decoded_models(out: AqueryOutput) -> Seq<CrateSpecModel>
    recommends
        all_decoded(out.actions@),
{
    Seq::new(out.actions@.len(), |i: int| out.actions@[i].crate_spec->Ok_0@)
}

/// `result` is what the output `aquery_stdout`, which decodes to `decoded`, comes to.
///
/// Where all its crate specs decode, that is their consolidation. Otherwise it is the
/// error about the first crate spec that does not decode, or, where not even the output
/// does, the error for the kind of JSON value that it holds.
pub open spec fn is_outcome(
    aquery_stdout: Seq<char>,
    decoded: Option<AqueryOutput>,
    result: Result<Vec<CrateSpec>, AqueryError>,
) -> bool {
    match decoded {
        None => result == Err::<Vec<CrateSpec>, AqueryError>(
            undecodable_error(json_kind_of(aquery_stdout)),
        ),
        Some(out) => {
            &&& all_decoded(out.actions@) ==> {
                &&& result matches Ok(specs)
                &&& is_consolidation(models(specs@), decoded_models(out))
            }
            &&& !all_decoded(out.actions@) ==> out.yields(result)
        },
    }
}

/// Takes the crate specs out of the output of `bazel aquery` and consolidates them.
///
/// `decoded` is what the text `aquery_stdout` decodes to, or `None` where it does
/// not list actions and targets.
pub fn crate_specs_of_output(aquery_stdout: &str, decoded: Option<AqueryOutput>) -> (result: Result<
    Vec<CrateSpec>,
    AqueryError,
>)
    requires
        decoded matches Some(out) ==> out.failure_is_labelled(),
    ensures
        is_outcome(aquery_stdout@, decoded, result),
        decoded matches Some(out) ==> (forall|i: int|
            0 <= i < out.actions@.len() ==> (#[trigger] out.actions@[i]).crate_spec is Ok) ==> {
            &&& result is Ok
            &&& forall|i: int|
                0 <= i < out.actions@.len() ==> exists|k: int|
                    0 <= k < result->Ok_0@.len() && (#[trigger] result->Ok_0@[k]).crate_id@ == (
                    #[trigger] out.actions@[i]).crate_spec->Ok_0.crate_id@
            &&& forall|k: int|
                0 <= k < result->Ok_0@.len() ==> (#[trigger] result->Ok_0@[k])@ == merged(
                    specs_of(
                        Seq::new(
                            out.actions@.len(),
                            |i: int| out.actions@[i].crate_spec->Ok_0@,
                        ),
                        result->Ok_0@[k].crate_id@,
                    ),
                )
        },
        decoded matches Some(out) ==> (exists|i: int|
            0 <= i < out.actions@.len() && (#[trigger] out.actions@[i]).crate_spec is Err)
            ==> result is Err,
{
    proof {
        if decoded is Some {
            all_decoded_or_first_failure(decoded->0.actions@);
        }
    }
    let result = match parse_aquery_output(aquery_stdout, decoded) {
        Ok(crate_specs) => {
            proof {
                let out = decoded->0;
                assert(models(crate_specs@) =~= decoded_models(out));
            }
            consolidate_crate_specs(crate_specs)
        },
        Err(error) => Err(error),
    };
    proof {
        if decoded is Some && all_decoded(decoded->0.actions@) {
            decoded_actions_come_out(aquery_stdout@, decoded->0, result);
        }
    }
    result
}

/// Where the crate specs of all actions decode, what comes out is the consolidation of
/// exactly these: it lists the crate of each action, and each entry is the merge of what all
/// the actions with its ID decode to, in the order of the actions.
pub proof fn decoded_actions_come_out(
    aquery_stdout: Seq<char>,
    out: AqueryOutput,
    result: Result<Vec<CrateSpec>, AqueryError>,
)
    requires
        is_outcome(aquery_stdout, Some(out), result),
        forall|i: int|
            0 <= i < out.actions@.len() ==> (#[trigger] out.actions@[i]).crate_spec is Ok,
    ensures
        result is Ok,
        is_consolidation(
            models(result->Ok_0@),
            Seq::new(out.actions@.len(), |i: int| out.actions@[i].crate_spec->Ok_0@),
        ),
        forall|i: int|
            0 <= i < out.actions@.len() ==> exists|k: int|
                0 <= k < result->Ok_0@.len() && (#[trigger] result->Ok_0@[k]).crate_id@ == (
                #[trigger] out.actions@[i]).crate_spec->Ok_0.crate_id@,
        forall|k: int|
            0 <= k < result->Ok_0@.len() ==> (#[trigger] result->Ok_0@[k])@ == merged(
                specs_of(
                    Seq::new(out.actions@.len(), |i: int| out.actions@[i].crate_spec->Ok_0@),
                    result->Ok_0@[k].crate_id@,
                ),
            ),
{
    let specs = result->Ok_0@;
    let decoded = Seq::new(out.actions@.len(), |i: int| out.actions@[i].crate_spec->Ok_0@);
    assert forall|i: int| 0 <= i < out.actions@.len() implies exists|k: int|
        0 <= k < specs.len() && (#[trigger] specs[k]).crate_id@ == (
        #[trigger] out.actions@[i]).crate_spec->Ok_0.crate_id@ by {
        each_crate_listed(models(specs), decoded, i);
    }
    assert(forall|k: int| 0 <= k < specs.len() ==> models(specs)[k] == (#[trigger] specs[k])@);
}

/// Where the crate specs of all actions decode, what comes out is sorted by crate ID, has no
/// ID twice, and lists no crate but those of the actions.
pub proof fn only_decoded_actions_come_out(
    aquery_stdout: Seq<char>,
    out: AqueryOutput,
    result: Result<Vec<CrateSpec>, AqueryError>,
    k: int,
)
    requires
        is_outcome(aquery_stdout, Some(out), result),
        forall|i: int|
            0 <= i < out.actions@.len() ==> (#[trigger] out.actions@[i]).crate_spec is Ok,
        0 <= k < result->Ok_0@.len(),
    ensures
        exists|i: int|
            0 <= i < out.actions@.len() && (
            #[trigger] out.actions@[i]).crate_spec->Ok_0.crate_id@ == result->Ok_0@[k].crate_id@,
        forall|j: int|
            0 <= j < k ==> text_less(
                (#[trigger] result->Ok_0@[j]).crate_id@,
                result->Ok_0@[k].crate_id@,
            ) && result->Ok_0@[j].crate_id@ != result->Ok_0@[k].crate_id@,
{
    let specs = models(result->Ok_0@);
    let decoded = decoded_models(out);
    no_other_crate_listed(specs, decoded, k);
    assert forall|j: int| 0 <= j < k implies text_less(
        (#[trigger] result->Ok_0@[j]).crate_id@,
        result->Ok_0@[k].crate_id@,
    ) && result->Ok_0@[j].crate_id@ != result->Ok_0@[k].crate_id@ by {
        entries_sorted(specs, decoded, j, k);
    }
}

/// Where the crate spec of action `k` is the first that does not decode, and target `t` is
/// the last with the ID that the action names, that is what comes out: the label of that
/// target and the cause of that action.
pub proof fn failed_action_comes_out(
    aquery_stdout: Seq<char>,
    out: AqueryOutput,
    result: Result<Vec<CrateSpec>, AqueryError>,
    k: int,
    t: int,
)
    requires
        is_outcome(aquery_stdout, Some(out), result),
        0 <= k < out.actions@.len(),
        out.actions@[k].crate_spec is Err,
        forall|i: int| 0 <= i < k ==> (#[trigger] out.actions@[i]).crate_spec is Ok,
        0 <= t < out.targets@.len(),
        out.targets@[t].id == out.actions@[k].target_id,
        forall|u: int|
            t < u < out.targets@.len() ==> (#[trigger] out.targets@[u]).id
                != out.actions@[k].target_id,
    ensures
        result is Err,
        result->Err_0 is InvalidCrateSpec,
        result->Err_0->label@ == out.targets@[t].label@,
        result->Err_0->InvalidCrateSpec_cause == out.actions@[k].crate_spec->Err_0,
{
    first_failure_comes_out(out, result, k, t);
}

/// An output that does not list actions and targets comes to an empty result exactly if it is
/// a JSON object, and to invalid JSON otherwise.
pub proof fn undecodable_output_comes_out(
    aquery_stdout: Seq<char>,
    result: Result<Vec<CrateSpec>, AqueryError>,
)
    requires
        is_outcome(aquery_stdout, None, result),
    ensures
        result is Err,
        result->Err_0 is EmptyResult <==> json_kind_of(aquery_stdout) == Some(JsonKind::Object),
        result->Err_0 is InvalidJson <==> json_kind_of(aquery_stdout) != Some(JsonKind::Object),
{
}

/// Two results say the same: they hold the same crate specs, or errors of the same kind
/// about the same target, for the same cause.
pub open spec fn same_outcome(
    a: Result<Vec<CrateSpec>, AqueryError>,
    b: Result<Vec<CrateSpec>, AqueryError>,
) -> bool {
    match (a, b) {
        (Ok(specs), Ok(others)) => models(specs@) == models(others@),
        (
            Err(AqueryError::InvalidCrateSpec { label, cause }),
            Err(AqueryError::InvalidCrateSpec { label: other_label, cause: other_cause }),
        ) => label@ == other_label@ && cause@ == other_cause@,
        (Err(error), Err(other)) => error == other,
        _ => false,
    }
}

/// The same output always comes to the same result.
pub proof fn outcome_unique(
    aquery_stdout: Seq<char>,
    decoded: Option<AqueryOutput>,
    a: Result<Vec<CrateSpec>, AqueryError>,
    b: Result<Vec<CrateSpec>, AqueryError>,
)
    requires
        is_outcome(aquery_stdout, decoded, a),
        is_outcome(aquery_stdout, decoded, b),
    ensures
        same_outcome(a, b),
{
    if let Some(out) = decoded {
        if all_decoded(out.actions@) {
            consolidation_unique(models(a->Ok_0@), models(b->Ok_0@), decoded_models(out));
        } else {
            all_decoded_or_first_failure(out.actions@);
        }
    }
}

} // verus!
