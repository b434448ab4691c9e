use vstd::prelude::*;
use vstd::string::StringExecFns;
use crate::dictionary::texts_of;
use crate::fields::{pairs_of, TableView};
use crate::text::{join_texts, joined, truth_name, truth_text};
use crate::validation::put;

verus! {

/// What a check of the pack configuration found.
#[derive(Clone, Debug, PartialEq, Eq)]
pub struct AipackValidationResult {
    pub is_valid: bool,
    pub default_model: Option<String>,
    pub error_messages: Vec<String>,
}

/// The metadata of a result: whether the configuration is valid, the
/// default model where there is one, and the error messages, with `; `
/// between them, where there are any.
pub open spec fn metadata_of(result: AipackValidationResult) -> TableView {
    seq![("config_valid"@, truth_name(result.is_valid))] + (match result.default_model {
        Some(model) => seq![("default_model"@, model@)],
        None => Seq::empty(),
    }) + (if result.error_messages.len() > 0 {
        seq![("error_messages"@, joined(texts_of(result.error_messages@), "; "@))]
    } else {
        Seq::empty()
    })
}

impl AipackValidationResult {
    /// The result as pairs of a name and a value, each name once.
    pub fn into_metadata(self) -> (metadata: Vec<(String, String)>)
        ensures
            pairs_of(metadata@) == metadata_of(self),
    {
        let mut metadata: Vec<(String, String)> = Vec::new();
        assert(pairs_of(metadata@) =~= TableView::empty());
        put(&mut metadata, "config_valid", truth_text(self.is_valid));
        let ghost first = pairs_of(metadata@);
        assert(first =~= seq![("config_valid"@, truth_name(self.is_valid))]);
        match &self.default_model {
            Some(model) => {
                put(&mut metadata, "default_model", model.clone());
                assert(pairs_of(metadata@) =~= first + seq![("default_model"@, model@)]);
            },
            None => {
                assert(pairs_of(metadata@) =~= first + Seq::empty());
            },
        }
        let ghost second = pairs_of(metadata@);
        if self.error_messages.len() > 0 {
            let messages = join_texts(&self.error_messages, "; ");
            assert(Seq::new(self.error_messages@.len(), |i: int| self.error_messages@[i]@)
                =~= texts_of(self.error_messages@));
            put(&mut metadata, "error_messages", messages);
            assert(pairs_of(metadata@) =~= second + seq![("error_messages"@, messages@)]);
        } else {
            assert(pairs_of(metadata@) =~= second + Seq::empty());
        }
        metadata
    }
}

impl AipackValidationResult {
    /// The result of reading a configuration: valid with the default model
    /// that was read, or invalid with the message on why nothing was read.
    pub fn of_reading(outcome: Result<String, String>) -> (result: Self)
        ensures
            match outcome {
                Ok(model) => {
                    &&& result.is_valid
                    &&& result.default_model == Some(model)
                    &&& result.error_messages@.len() == 0
                },
                Err(reason) => {
                    &&& !result.is_valid
                    &&& result.default_model is None
                    &&& texts_of(result.error_messages@) == seq![
                        "Configuration parsing error: "@ + reason@,
                    ]
                },
            },
    {
        match outcome {
            Ok(model) => AipackValidationResult {
                is_valid: true,
                default_model: Some(model),
                error_messages: Vec::new(),
            },
            Err(reason) => {
                let mut message = "Configuration parsing error: ".to_owned();
                message.append(reason.as_str());
                let mut error_messages: Vec<String> = Vec::new();
                error_messages.push(message);
                assert(texts_of(error_messages@) =~= seq![message@]);
                AipackValidationResult { is_valid: false, default_model: None, error_messages }
            },
        }
    }
}

/// Checks a pack configuration file.
#[derive(Clone, Debug, PartialEq, Eq)]
pub struct AipackValidator {
    pub config_path: String,
}

impl AipackValidator {
    /// A validator for the configuration file at `config_path`.
    pub fn new(config_path: &str) -> (v: Self)
        ensures
            v.config_path@ == config_path@,
    {
        AipackValidator { config_path: config_path.to_owned() }
    }
}

} // verus!
