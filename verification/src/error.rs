//! What can go wrong between Bazel's answer and the crate specs.
use vstd::prelude::*;
use vstd::string::StringExecFns;

verus! {

/// Why the output of `bazel aquery` could not be turned into crate specs.
#[derive(Clone, Debug, PartialEq, Eq)]
pub enum AqueryError {
    /// The output is not UTF-8. `cause` says where.
    InvalidUtf8 { cause: String },
    /// The output is a JSON object, but not one that lists actions and targets.
    EmptyResult,
    /// The output is not a JSON object.
    InvalidJson,
    /// The crate spec of the target `label` could not be decoded. `cause` says why.
    InvalidCrateSpec { label: String, cause: String },
}

impl AqueryError {
    /// The text that [`AqueryError::message`] returns.
    pub open spec fn message_text(self) -> Seq<char> {
        match self {
            AqueryError::InvalidUtf8 { cause } => cause@,
            AqueryError::EmptyResult =>
                "Aquery returned an empty result, are there any Rust targets in the specified paths?."@,
            AqueryError::InvalidJson => "Failed to parse aquery output as JSON"@,
            AqueryError::InvalidCrateSpec { label, cause: _ } =>
                "Failed to deserialize crate_spec for target "@ + label@,
        }
    }

    /// What to tell the user.
    pub fn message(&self) -> (message: String)
        ensures
            message@ == self.message_text(),
            self matches AqueryError::InvalidUtf8 { cause } ==> message@ == cause@,
            self is EmptyResult ==> message@
                == "Aquery returned an empty result, are there any Rust targets in the specified paths?."@,
            self is InvalidJson ==> message@ == "Failed to parse aquery output as JSON"@,
            self matches AqueryError::InvalidCrateSpec { label, cause: _ } ==> message@
                == "Failed to deserialize crate_spec for target "@ + label@,
    {
        match self {
            AqueryError::InvalidUtf8 { cause } => cause.clone(),
            AqueryError::EmptyResult =>
                "Aquery returned an empty result, are there any Rust targets in the specified paths?.".to_string(),
            AqueryError::InvalidJson => "Failed to parse aquery output as JSON".to_string(),
            AqueryError::InvalidCrateSpec { label, cause: _ } => {
                let mut message = "Failed to deserialize crate_spec for target ".to_string();
                message.append(label.as_str());
                message
            },
        }
    }
}

/// The message about a crate spec that does not decode ends in the label of its target,
/// whatever the cause. The message about bytes that are not UTF-8 is the cause itself. The
/// other two messages are fixed.
pub proof fn messages_in_words(label: String, cause: String)
    ensures
        (AqueryError::InvalidCrateSpec { label, cause }).message_text()
            == "Failed to deserialize crate_spec for target "@ + label@,
        (AqueryError::InvalidUtf8 { cause }).message_text() == cause@,
        AqueryError::EmptyResult.message_text()
            == "Aquery returned an empty result, are there any Rust targets in the specified paths?."@,
        AqueryError::InvalidJson.message_text() == "Failed to parse aquery output as JSON"@,
{
}

/// The messages about the crate specs of two targets are the same only if the targets
/// have the same label.
pub proof fn messages_tell_targets_apart(
    label: String,
    cause: String,
    other_label: String,
    other_cause: String,
)
    requires
        (AqueryError::InvalidCrateSpec { label, cause }).message_text() == (
        AqueryError::InvalidCrateSpec { label: other_label, cause: other_cause }).message_text(),
    ensures
        label@ == other_label@,
{
    let prefix = "Failed to deserialize crate_spec for target "@;
    assert((prefix + label@).skip(prefix.len() as int) =~= label@);
}

} // verus!
