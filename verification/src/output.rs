//! What `bazel aquery` printed, and the crate specs in it.
use crate::crate_spec::CrateSpec;
use crate::error::AqueryError;
use vstd::prelude::*;
use vstd::utf8::{decode_utf8, valid_utf8};

verus! {

/// The output of `bazel aquery`, decoded from JSON.
#[derive(Debug)]
pub struct AqueryOutput {
    pub actions: Vec<Action>,
    pub targets: Vec<Target>,
}

/// An action that writes a crate spec to a file.
#[derive(Debug)]
pub struct Action {
    /// The target that the action belongs to.
    pub target_id: u32,
    /// The crate spec that the contents of the file decode to, or why they do not.
    pub crate_spec: Result<CrateSpec, String>,
}

/// A target that an action belongs to.
#[derive(Debug)]
pub struct Target {
    pub id: u32,
    pub label: String,
}

/// The label of the target `id`. Where several targets have that ID, the last
/// one counts.
pub open spec fn label_of(targets: Seq<Target>, id: u32) -> Option<Seq<char>>
    decreases targets.len(),
{
    if targets.len() == 0 {
        None
    } else if targets.last().id == id {
        Some(targets.last().label@)
    } else {
        label_of(targets.drop_last(), id)
    }
}

/// The crate spec of each action could be decoded.
pub open spec fn all_decoded(actions: Seq<Action>) -> bool {
    forall|i: int| 0 <= i < actions.len() ==> (#[trigger] actions[i]).crate_spec is Ok
}

/// Action `k` is the first whose crate spec could not be decoded.
pub open spec fn is_first_failure(actions: Seq<Action>, k: int) -> bool {
    &&& 0 <= k < actions.len()
    &&& actions[k].crate_spec is Err
    &&& forall|i: int| 0 <= i < k ==> (#[trigger] actions[i]).crate_spec is Ok
}

impl AqueryOutput {
    /// The first action whose crate spec could not be decoded, if there is one,
    /// belongs to a target that is listed. Bazel always lists it.
    pub open spec fn failure_is_labelled(self) -> bool {
        forall|k: int| #[trigger]
            is_first_failure(self.actions@, k) ==> label_of(
                self.targets@,
                self.actions@[k].target_id,
            ) is Some
    }

    /// `result` holds the crate specs of all actions, in order. Or, where the crate
    /// spec of an action could not be decoded, it says so about the first such
    /// action, by the label of its target.
    pub open spec fn yields(self, result: Result<Vec<CrateSpec>, AqueryError>) -> bool {
        &&& all_decoded(self.actions@) ==> {
            &&& result matches Ok(specs)
            &&& specs@.len() == self.actions@.len()
            &&& forall|i: int|
                0 <= i < specs@.len() ==> self.actions@[i].crate_spec == Ok::<CrateSpec, String>(
                    #[trigger] specs@[i],
                )
        }
        &&& forall|k: int| #[trigger]
            is_first_failure(self.actions@, k) ==> {
                &&& result matches Err(AqueryError::InvalidCrateSpec { label, cause })
                &&& label_of(self.targets@, self.actions@[k].target_id) == Some(label@)
                &&& self.actions@[k].crate_spec == Err::<CrateSpec, String>(cause)
            }
    }

    /// Takes the crate specs of all actions, in order. Where one could not be decoded,
    /// the first such action decides the error.
    pub fn into_crate_specs(self) -> (result: Result<Vec<CrateSpec>, AqueryError>)
        requires
            self.failure_is_labelled(),
        ensures
            self.yields(result),
            (forall|i: int|
                0 <= i < self.actions@.len() ==> (#[trigger] self.actions@[i]).crate_spec is Ok)
                ==> {
                &&& result is Ok
                &&& result->Ok_0@.len() == self.actions@.len()
                &&& forall|i: int|
                    0 <= i < self.actions@.len() ==> #[trigger] result->Ok_0@[i]
                        == self.actions@[i].crate_spec->Ok_0
            },
    {
        let actions = self.actions;
        let targets = self.targets;
        let mut crate_specs: Vec<CrateSpec> = Vec::new();
        for action in it: actions
            invariant
                it.seq() == actions@,
                actions == self.actions,
                targets == self.targets,
                self.failure_is_labelled(),
                crate_specs@.len() == it.index(),
                forall|i: int|
                    0 <= i < it.index() ==> (#[trigger] actions@[i]).crate_spec == Ok::<
                        CrateSpec,
                        String,
                    >(crate_specs@[i]),
        {
            let ghost at = it.index() as int;
            match action.crate_spec {
                Ok(spec) => {
                    crate_specs.push(spec);
                },
                Err(cause) => {
                    assert(is_first_failure(actions@, at));
                    match find_label(&targets, action.target_id) {
                        Some(label) => {
                            return Err(AqueryError::InvalidCrateSpec { label, cause });
                        },
                        None => {
                            return vstd::pervasive::unreached();
                        },
                    }
                },
            }
        }
        Ok(crate_specs)
    }

    /// Whether the first action whose crate spec could not be decoded, if there is
    /// one, belongs to a target that is listed.
    pub fn has_labelled_failure(&self) -> (labelled: bool)
        ensures
            labelled == self.failure_is_labelled(),
            labelled <==> forall|k: int|
                0 <= k < self.actions@.len() && (#[trigger] self.actions@[k]).crate_spec is Err && (
                forall|i: int| 0 <= i < k ==> (#[trigger] self.actions@[i]).crate_spec is Ok)
                    ==> exists|t: int|
                    0 <= t < self.targets@.len() && (#[trigger] self.targets@[t]).id
                        == self.actions@[k].target_id,
    {
        let mut i: usize = 0;
        while i < self.actions.len()
            invariant
                0 <= i <= self.actions.len(),
                forall|j: int| 0 <= j < i ==> (#[trigger] self.actions@[j]).crate_spec is Ok,
            decreases self.actions.len() - i,
        {
            if self.actions[i].crate_spec.is_err() {
                assert(is_first_failure(self.actions@, i as int));
                return find_label(&self.targets, self.actions[i].target_id).is_some();
            }
            i = i + 1;
        }
        true
    }
}

/// Looks up the label of the target `id`. Where several targets have that ID, the
/// last one counts.
pub fn find_label(targets: &Vec<Target>, id: u32) -> (label: Option<String>)
    ensures
        match label {
            Some(text) => label_of(targets@, id) == Some(text@),
            None => label_of(targets@, id) is None,
        },
        label is None <==> forall|t: int|
            0 <= t < targets@.len() ==> (#[trigger] targets@[t]).id != id,
        forall|t: int|
            0 <= t < targets@.len() && (#[trigger] targets@[t]).id == id && (forall|u: int|
                t < u < targets@.len() ==> (#[trigger] targets@[u]).id != id) ==> label is Some
                && label->0@ == targets@[t].label@,
{
    let mut i: usize = targets.len();
    assert(targets@.take(i as int) =~= targets@);
    while i > 0
        invariant
            0 <= i <= targets.len(),
            label_of(targets@, id) == label_of(targets@.take(i as int), id),
            forall|t: int| i <= t < targets@.len() ==> (#[trigger] targets@[t]).id != id,
        decreases i,
    {
        i = i - 1;
        assert(targets@.take(i + 1).drop_last() =~= targets@.take(i as int));
        if targets[i].id == id {
            return Some(targets[i].label.clone());
        }
    }
    None
}

/// Either the crate spec of each action could be decoded, or exactly one action is the
/// first whose crate spec could not.
pub proof fn all_decoded_or_first_failure(actions: Seq<Action>)
    ensures
        all_decoded(actions) <==> !(exists|k: int| is_first_failure(actions, k)),
        forall|j: int, k: int|
            is_first_failure(actions, j) && is_first_failure(actions, k) ==> j == k,
    decreases actions.len(),
{
    if actions.len() > 0 {
        let front = actions.drop_last();
        all_decoded_or_first_failure(front);
        if exists|k: int| is_first_failure(front, k) {
            let k = choose|k: int| is_first_failure(front, k);
            assert forall|i: int| 0 <= i < k implies (#[trigger] actions[i]).crate_spec is Ok by {
                assert(front[i].crate_spec is Ok);
            }
            assert(is_first_failure(actions, k));
        } else {
            assert forall|i: int| 0 <= i < front.len() implies (
            #[trigger] actions[i]).crate_spec is Ok by {
                assert(front[i].crate_spec is Ok);
            }
            if actions.last().crate_spec is Err {
                assert(is_first_failure(actions, actions.len() - 1));
            }
        }
    }
}

/// The label of a target is that of the last target with its ID.
pub proof fn last_target_labels(targets: Seq<Target>, k: int)
    requires
        0 <= k < targets.len(),
        forall|i: int| k < i < targets.len() ==> (#[trigger] targets[i]).id != targets[k].id,
    ensures
        label_of(targets, targets[k].id) == Some(targets[k].label@),
    decreases targets.len(),
{
    if k < targets.len() - 1 {
        last_target_labels(targets.drop_last(), k);
    }
}

/// A target has a label exactly if one of the targets has its ID.
pub proof fn listed_targets_have_labels(targets: Seq<Target>, id: u32)
    ensures
        label_of(targets, id) is Some <==> exists|t: int|
            0 <= t < targets.len() && (#[trigger] targets[t]).id == id,
    decreases targets.len(),
{
    if targets.len() > 0 {
        let front = targets.drop_last();
        listed_targets_have_labels(front, id);
        assert(forall|t: int| 0 <= t < front.len() ==> front[t] == #[trigger] targets[t]);
    }
}

/// The first failure of an output is labelled exactly if one of the targets has the ID
/// that its action names.
pub proof fn labelled_failure_is_listed(out: AqueryOutput)
    ensures
        out.failure_is_labelled() <==> forall|k: int|
            0 <= k < out.actions@.len() && (#[trigger] out.actions@[k]).crate_spec is Err && (
            forall|i: int| 0 <= i < k ==> (#[trigger] out.actions@[i]).crate_spec is Ok)
                ==> exists|t: int|
                0 <= t < out.targets@.len() && (#[trigger] out.targets@[t]).id
                    == out.actions@[k].target_id,
{
    assert forall|id: u32| #[trigger] label_of(out.targets@, id) is Some <==> exists|t: int|
        0 <= t < out.targets@.len() && (#[trigger] out.targets@[t]).id == id by {
        listed_targets_have_labels(out.targets@, id);
    }
    assert forall|k: int|
        0 <= k < out.actions@.len() && (#[trigger] out.actions@[k]).crate_spec is Err && (forall|
            i: int,
        |
            0 <= i < k ==> (#[trigger] out.actions@[i]).crate_spec is Ok) implies is_first_failure(
        out.actions@,
        k,
    ) by {}
}

/// Where the crate specs of all actions decode, they are what comes out: as many of them,
/// in the order of the actions, and each as it was decoded.
pub proof fn decoded_specs_come_out(out: AqueryOutput, result: Result<Vec<CrateSpec>, AqueryError>)
    requires
        out.yields(result),
        forall|i: int|
            0 <= i < out.actions@.len() ==> (#[trigger] out.actions@[i]).crate_spec is Ok,
    ensures
        result is Ok,
        result->Ok_0@.len() == out.actions@.len(),
        forall|i: int|
            0 <= i < out.actions@.len() ==> #[trigger] result->Ok_0@[i]
                == out.actions@[i].crate_spec->Ok_0,
{
}

/// Where the crate spec of action `k` is the first that does not decode, and target `t` is
/// the last with the ID that the action names, the error has the label of that target and
/// the cause of that action.
pub proof fn first_failure_comes_out(
    out: AqueryOutput,
    result: Result<Vec<CrateSpec>, AqueryError>,
    k: int,
    t: int,
)
    requires
        out.yields(result),
        0 <= k < out.actions@.len(),
        out.actions@[k].crate_spec is Err,
        forall|i: int| 0 <= i < k ==> (#[trigger] out.actions@[i]).crate_spec is Ok,
        0 <= t < out.targets@.len(),
        out.targets@[t].id == out.actions@[k].target_id,
        forall|u: int|
            t < u < out.targets@.len() ==> (#[trigger] out.targets@[u]).id
                != out.actions@[k].target_id,
    ensures
        result is Err,
        result->Err_0 is InvalidCrateSpec,
        result->Err_0->label@ == out.targets@[t].label@,
        result->Err_0->InvalidCrateSpec_cause == out.actions@[k].crate_spec->Err_0,
{
    assert(is_first_failure(out.actions@, k));
    last_target_labels(out.targets@, t);
}

/// What kind of value a JSON text holds.
#[derive(Clone, Copy, Debug, PartialEq, Eq, Structural)]
pub enum JsonKind {
    Null,
    Bool,
    Number,
    String,
    Array,
    Object,
}

/// The kind of value that `serde_json` finds in a text, or `None` where the text is
/// not JSON.
pub uninterp spec fn json_kind_of(text: Seq<char>) -> Option<JsonKind>;

/// Parses `text` with `serde_json::from_str` into a `serde_json::Value` and tells
/// which variant came out.
///
/// Trusted: whether `from_str` succeeds, and with which variant, depends on the text
/// alone.
#[verifier::external_body]
fn json_kind(text: &str) -> (kind: Option<JsonKind>)
    ensures
        kind == json_kind_of(text@),
{
    match serde_json::from_str::<serde_json::Value>(text) {
        Ok(serde_json::Value::Null) => Some(JsonKind::Null),
        Ok(serde_json::Value::Bool(_)) => Some(JsonKind::Bool),
        Ok(serde_json::Value::Number(_)) => Some(JsonKind::Number),
        Ok(serde_json::Value::String(_)) => Some(JsonKind::String),
        Ok(serde_json::Value::Array(_)) => Some(JsonKind::Array),
        Ok(serde_json::Value::Object(_)) => Some(JsonKind::Object),
        Err(_) => None,
    }
}

/// What `String::from_utf8` says about bytes that are not UTF-8.
pub uninterp spec fn utf8_error_text(bytes: Seq<u8>) -> Seq<char>;

/// Turns bytes into a string with `String::from_utf8`, and its error into text.
///
/// Trusted: the call succeeds exactly on valid UTF-8 and then gives the text that
/// the bytes encode. What the error says depends on the bytes alone.
#[verifier::external_body]
fn string_from_utf8(bytes: Vec<u8>) -> (text: Result<String, String>)
    ensures
        match text {
            Ok(s) => valid_utf8(bytes@) && s@ == decode_utf8(bytes@),
            Err(e) => !valid_utf8(bytes@) && e@ == utf8_error_text(bytes@),
        },
{
    String::from_utf8(bytes).map_err(|e| e.to_string())
}

/// Decodes what Bazel wrote to its standard output.
pub fn decode_stdout(stdout: Vec<u8>) -> (text: Result<String, AqueryError>)
    ensures
        match text {
            Ok(s) => valid_utf8(stdout@) && s@ == decode_utf8(stdout@),
            Err(e) => {
                &&& !valid_utf8(stdout@)
                &&& e matches AqueryError::InvalidUtf8 { cause }
                &&& cause@ == utf8_error_text(stdout@)
            },
        },
{
    match string_from_utf8(stdout) {
        Ok(s) => Ok(s),
        Err(cause) => Err(AqueryError::InvalidUtf8 { cause }),
    }
}

/// The error for an output that does not list actions and targets, by the kind of
/// JSON value that it holds. An object means that the query likely failed.
pub open spec fn undecodable_error(kind: Option<JsonKind>) -> AqueryError {
    if kind == Some(JsonKind::Object) {
        AqueryError::EmptyResult
    } else {
        AqueryError::InvalidJson
    }
}

/// An output that does not list actions and targets is taken for an empty result exactly if
/// it is a JSON object, and for invalid JSON otherwise.
pub proof fn objects_are_empty_results(kind: Option<JsonKind>)
    ensures
        undecodable_error(kind) is EmptyResult <==> kind == Some(JsonKind::Object),
        undecodable_error(kind) is InvalidJson <==> kind != Some(JsonKind::Object),
{
}

/// The error for an output that does not list actions and targets, by the kind of
/// JSON value that it holds.
pub fn undecodable_output(kind: Option<JsonKind>) -> (error: AqueryError)
    ensures
        error == undecodable_error(kind),
        error is EmptyResult <==> kind == Some(JsonKind::Object),
        error is InvalidJson <==> kind != Some(JsonKind::Object),
{
    match kind {
        // If the JSON is an object, it's likely that the aquery command failed.
        Some(JsonKind::Object) => AqueryError::EmptyResult,
        _ => AqueryError::InvalidJson,
    }
}

/// Takes the crate specs out of the output of `bazel aquery`.
///
/// `decoded` is what the text `aquery_stdout` decodes to, or `None` where it does
/// not list actions and targets.
pub fn parse_aquery_output(aquery_stdout: &str, decoded: Option<AqueryOutput>) -> (result: Result<
    Vec<CrateSpec>,
    AqueryError,
>)
    requires
        decoded matches Some(out) ==> out.failure_is_labelled(),
    ensures
        match decoded {
            Some(out) => out.yields(result),
            None => result == Err::<Vec<CrateSpec>, AqueryError>(
                undecodable_error(json_kind_of(aquery_stdout@)),
            ),
        },
        decoded matches Some(out) ==> (forall|i: int|
            0 <= i < out.actions@.len() ==> (#[trigger] out.actions@[i]).crate_spec is Ok) ==> {
            &&& result is Ok
            &&& result->Ok_0@.len() == out.actions@.len()
            &&& forall|i: int|
                0 <= i < out.actions@.len() ==> #[trigger] result->Ok_0@[i]
                    == out.actions@[i].crate_spec->Ok_0
        },
        decoded is None ==> {
            &&& result is Err
            &&& result->Err_0 is EmptyResult <==> json_kind_of(aquery_stdout@) == Some(
                JsonKind::Object,
            )
            &&& result->Err_0 is InvalidJson <==> json_kind_of(aquery_stdout@) != Some(
                JsonKind::Object,
            )
        },
{
    match decoded {
        Some(out) => out.into_crate_specs(),
        None => Err(undecodable_output(json_kind(aquery_stdout))),
    }
}

} // verus!
