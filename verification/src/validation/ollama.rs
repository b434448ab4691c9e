use vstd::prelude::*;
use crate::dictionary::texts_of;
use crate::fields::{pairs_of, TableView};
use vstd::string::StringExecFns;
use crate::text::{
    contains_text, decimal, decimal_text, join_texts, joined, same_text, text_contains,
    truth_name, truth_text,
};
use crate::validation::put;

verus! {

/// One gibibyte, in bytes.
pub const GB: u64 = 1_073_741_824;

/// A model as the model service lists it.
#[derive(Clone, Debug, PartialEq, Eq)]
pub struct OllamaModel {
    pub name: String,
    pub size_bytes: u64,
    pub size_category: ModelSizeCategory,
    pub recommended_timeout_seconds: u64,
    pub parameter_info: Option<String>,
    pub modified_at: String,
}

/// How large a model is, which decides how long a request to it may take.
#[derive(Clone, Copy, Debug, PartialEq, Eq, Structural)]
pub enum ModelSizeCategory {
    /// Up to 1 GiB.
    Small,
    /// More than 1 GiB, up to 5 GiB.
    Medium,
    /// More than 5 GiB, up to 20 GiB.
    Large,
    /// More than 20 GiB.
    XL,
}

impl ModelSizeCategory {
    /// The timeout for a model of this category, in seconds.
    pub open spec fn timeout_of(self) -> u64 {
        match self {
            ModelSizeCategory::Small => 30,
            ModelSizeCategory::Medium => 60,
            ModelSizeCategory::Large => 120,
            ModelSizeCategory::XL => 300,
        }
    }

    /// The category of a model of the given size.
    pub open spec fn category_of(size_bytes: u64) -> ModelSizeCategory {
        if size_bytes <= GB {
            ModelSizeCategory::Small
        } else if size_bytes <= 5 * GB {
            ModelSizeCategory::Medium
        } else if size_bytes <= 20 * GB {
            ModelSizeCategory::Large
        } else {
            ModelSizeCategory::XL
        }
    }

    /// The timeout for a model of this category, in seconds.
    pub fn recommended_timeout(&self) -> (seconds: u64)
        ensures
            seconds == self.timeout_of(),
    {
        match self {
            ModelSizeCategory::Small => 30,
            ModelSizeCategory::Medium => 60,
            ModelSizeCategory::Large => 120,
            ModelSizeCategory::XL => 300,
        }
    }

    /// The category of a model of the given size.
    pub fn from_size_bytes(size_bytes: u64) -> (category: Self)
        ensures
            category == Self::category_of(size_bytes),
    {
        if size_bytes <= GB {
            ModelSizeCategory::Small
        } else if size_bytes <= 5 * GB {
            ModelSizeCategory::Medium
        } else if size_bytes <= 20 * GB {
            ModelSizeCategory::Large
        } else {
            ModelSizeCategory::XL
        }
    }
}

/// What a check of the model service found.
#[derive(Clone, Debug, PartialEq, Eq)]
pub struct OllamaValidationResult {
    pub service_accessible: bool,
    pub version: Option<String>,
    pub available_models: Vec<OllamaModel>,
    pub missing_models: Vec<String>,
    pub response_time_ms: u64,
    pub total_models_available: usize,
    pub error_messages: Vec<String>,
}

/// How many of `models` are of the category `category`.
pub open spec fn count_of(models: Seq<OllamaModel>, category: ModelSizeCategory) -> nat
    decreases models.len(),
{
    if models.len() == 0 {
        0
    } else if models.last().size_category == category {
        count_of(models.drop_last(), category) + 1
    } else {
        count_of(models.drop_last(), category)
    }
}

/// The names of `models`, in order.
pub open spec fn names_of(models: Seq<OllamaModel>) -> Seq<Seq<char>> {
    Seq::new(models.len(), |i: int| models[i].name@)
}

/// The metadata of a result: what it found, the number of models of each
/// size category, the names of the models with `,` between them, and,
/// where there are any, the missing models and the error messages.
pub open spec fn metadata_of(result: OllamaValidationResult) -> TableView {
    seq![
        ("service_accessible"@, truth_name(result.service_accessible)),
        ("response_time_ms"@, decimal(result.response_time_ms as nat)),
        ("available_model_count"@, decimal(result.available_models.len() as nat)),
        ("missing_model_count"@, decimal(result.missing_models.len() as nat)),
        ("total_models_available"@, decimal(result.total_models_available as nat)),
    ] + (match result.version {
        Some(version) => seq![("ollama_version"@, version@)],
        None => Seq::empty(),
    }) + seq![
        (
            "small_models_count"@,
            decimal(count_of(result.available_models@, ModelSizeCategory::Small)),
        ),
        (
            "medium_models_count"@,
            decimal(count_of(result.available_models@, ModelSizeCategory::Medium)),
        ),
        (
            "large_models_count"@,
            decimal(count_of(result.available_models@, ModelSizeCategory::Large)),
        ),
        ("xl_models_count"@, decimal(count_of(result.available_models@, ModelSizeCategory::XL))),
        ("available_models"@, joined(names_of(result.available_models@), ","@)),
    ] + (if result.missing_models.len() > 0 {
        seq![("missing_models"@, joined(texts_of(result.missing_models@), ","@))]
    } else {
        Seq::empty()
    }) + (if result.error_messages.len() > 0 {
        seq![("error_messages"@, joined(texts_of(result.error_messages@), "; "@))]
    } else {
        Seq::empty()
    })
}

/// How many of `models` are of the category `category`.
fn count_category(models: &Vec<OllamaModel>, category: ModelSizeCategory) -> (n: usize)
    ensures
        n == count_of(models@, category),
{
    let mut n: usize = 0;
    let mut i: usize = 0;
    assert(models@.take(0) =~= Seq::<OllamaModel>::empty());
    while i < models.len()
        invariant
            i <= models.len(),
            n <= i,
            n == count_of(models@.take(i as int), category),
        decreases models.len() - i,
    {
        assert(models@.take(i + 1).drop_last() == models@.take(i as int));
        if models[i].size_category == category {
            n += 1;
        }
        i += 1;
    }
    assert(models@.take(i as int) == models@);
    n
}

impl OllamaValidationResult {
    /// The result as pairs of a name and a value, each name once.
    pub fn into_metadata(self) -> (metadata: Vec<(String, String)>)
        ensures
            pairs_of(metadata@) == metadata_of(self),
    {
        let mut metadata: Vec<(String, String)> = Vec::new();
        assert(pairs_of(metadata@) =~= TableView::empty());
        put(&mut metadata, "service_accessible", truth_text(self.service_accessible));
        put(&mut metadata, "response_time_ms", decimal_text(self.response_time_ms as u128));
        put(
            &mut metadata,
            "available_model_count",
            decimal_text(self.available_models.len() as u128),
        );
        put(&mut metadata, "missing_model_count", decimal_text(self.missing_models.len() as u128));
        put(
            &mut metadata,
            "total_models_available",
            decimal_text(self.total_models_available as u128),
        );
        let ghost head = pairs_of(metadata@);
        assert(head =~= metadata_of(self).take(5));
        match &self.version {
            Some(version) => {
                put(&mut metadata, "ollama_version", version.clone());
            },
            None => {},
        }
        let small = count_category(&self.available_models, ModelSizeCategory::Small);
        let medium = count_category(&self.available_models, ModelSizeCategory::Medium);
        let large = count_category(&self.available_models, ModelSizeCategory::Large);
        let xl = count_category(&self.available_models, ModelSizeCategory::XL);
        put(&mut metadata, "small_models_count", decimal_text(small as u128));
        put(&mut metadata, "medium_models_count", decimal_text(medium as u128));
        put(&mut metadata, "large_models_count", decimal_text(large as u128));
        put(&mut metadata, "xl_models_count", decimal_text(xl as u128));
        let mut names: Vec<String> = Vec::new();
        let mut i: usize = 0;
        while i < self.available_models.len()
            invariant
                i <= self.available_models.len(),
                names.len() == i,
                forall|k: int| 0 <= k < i ==> (#[trigger] names[k])@ == self.available_models[k].name@,
            decreases self.available_models.len() - i,
        {
            names.push(self.available_models[i].name.clone());
            i += 1;
        }
        assert(Seq::new(names@.len(), |i: int| names@[i]@) =~= names_of(self.available_models@));
        put(&mut metadata, "available_models", join_texts(&names, ","));
        if self.missing_models.len() > 0 {
            assert(Seq::new(self.missing_models@.len(), |i: int| self.missing_models@[i]@)
                =~= texts_of(self.missing_models@));
            put(&mut metadata, "missing_models", join_texts(&self.missing_models, ","));
        }
        if self.error_messages.len() > 0 {
            assert(Seq::new(self.error_messages@.len(), |i: int| self.error_messages@[i]@)
                =~= texts_of(self.error_messages@));
            put(&mut metadata, "error_messages", join_texts(&self.error_messages, "; "));
        }
        assert(pairs_of(metadata@) =~= metadata_of(self));
        metadata
    }
}

/// The models that are required and not available, in the order in which
/// they are required.
pub open spec fn missing_of(required: Seq<Seq<char>>, available: Seq<Seq<char>>) -> Seq<Seq<char>>
    decreases required.len(),
{
    if required.len() == 0 {
        Seq::empty()
    } else if available.contains(required.last()) {
        missing_of(required.drop_last(), available)
    } else {
        missing_of(required.drop_last(), available).push(required.last())
    }
}

/// Whether a model named `name` is among `models`.
pub fn is_listed(models: &Vec<OllamaModel>, name: &str) -> (r: bool)
    ensures
        r == names_of(models@).contains(name@),
{
    let mut i: usize = 0;
    while i < models.len()
        invariant
            i <= models.len(),
            forall|k: int| 0 <= k < i ==> (#[trigger] names_of(models@)[k]) != name@,
        decreases models.len() - i,
    {
        if same_text(models[i].name.as_str(), name) {
            assert(names_of(models@)[i as int] == name@);
            return true;
        }
        i += 1;
    }
    false
}

/// The required models that are not among the available ones.
pub fn missing_models(required: &Vec<String>, available: &Vec<OllamaModel>) -> (missing: Vec<
    String,
>)
    ensures
        texts_of(missing@) == missing_of(texts_of(required@), names_of(available@)),
{
    let ghost wanted = texts_of(required@);
    let mut missing: Vec<String> = Vec::new();
    let mut i: usize = 0;
    assert(wanted.take(0) =~= Seq::<Seq<char>>::empty());
    assert(texts_of(missing@) =~= Seq::<Seq<char>>::empty());
    while i < required.len()
        invariant
            i <= required.len(),
            wanted == texts_of(required@),
            texts_of(missing@) == missing_of(wanted.take(i as int), names_of(available@)),
        decreases required.len() - i,
    {
        assert(wanted.take(i + 1).drop_last() == wanted.take(i as int));
        assert(wanted.take(i + 1).last() == required[i as int]@);
        if !is_listed(available, required[i].as_str()) {
            let ghost before = missing@;
            missing.push(required[i].clone());
            assert(texts_of(missing@) =~= texts_of(before).push(required[i as int]@));
        }
        i += 1;
    }
    assert(wanted.take(i as int) == wanted);
    missing
}

/// The timeout for the first of `models` named `name`, in seconds.
pub open spec fn timeout_for(models: Seq<OllamaModel>, name: Seq<char>) -> u64
    decreases models.len(),
{
    if models.len() == 0 {
        60
    } else if models[0].name@ == name {
        models[0].recommended_timeout_seconds
    } else {
        timeout_for(models.drop_first(), name)
    }
}

/// The timeout that is recommended for the model named `name`: that of the
/// first of `models` with this name, and 60 seconds where none has it.
pub fn timeout_recommendation(models: &Vec<OllamaModel>, name: &str) -> (seconds: u64)
    ensures
        seconds == timeout_for(models@, name@),
{
    let mut i: usize = 0;
    assert(models@.skip(0) =~= models@);
    while i < models.len()
        invariant
            i <= models.len(),
            timeout_for(models@.skip(i as int), name@) == timeout_for(models@, name@),
        decreases models.len() - i,
    {
        assert(models@.skip(i as int)[0] == models[i as int]);
        assert(models@.skip(i as int).drop_first() =~= models@.skip(i + 1));
        if same_text(models[i].name.as_str(), name) {
            return models[i].recommended_timeout_seconds;
        }
        i += 1;
    }
    60
}

/// The number of parameters that the name of a model tells: `7B`, `13B` or
/// `3B`, looked for in this order, each in either case of its letter.
pub open spec fn parameter_hint(name: Seq<char>) -> Option<Seq<char>> {
    if contains_text(name, "7b"@) || contains_text(name, "7B"@) {
        Some("7B"@)
    } else if contains_text(name, "13b"@) || contains_text(name, "13B"@) {
        Some("13B"@)
    } else if contains_text(name, "3b"@) || contains_text(name, "3B"@) {
        Some("3B"@)
    } else {
        None
    }
}

/// The models with `model` put in before the first that is not smaller:
/// the place of a model that came before all of them in a list that is
/// ordered by size.
pub open spec fn placed(model: OllamaModel, models: Seq<OllamaModel>) -> Seq<OllamaModel>
    decreases models.len(),
{
    if models.len() == 0 {
        seq![model]
    } else if model.size_bytes <= models[0].size_bytes {
        seq![model] + models
    } else {
        seq![models[0]] + placed(model, models.drop_first())
    }
}

/// The models in the order of their sizes, smallest first. Models of one
/// size keep their order.
pub open spec fn sorted_by_size(models: Seq<OllamaModel>) -> Seq<OllamaModel>
    decreases models.len(),
{
    if models.len() == 0 {
        Seq::empty()
    } else {
        placed(models[0], sorted_by_size(models.drop_first()))
    }
}

/// No model stands before a smaller one.
pub open spec fn ordered_by_size(models: Seq<OllamaModel>) -> bool {
    forall|i: int, j: int|
        0 <= i <= j < models.len() ==> (#[trigger] models[i]).size_bytes <= (
        #[trigger] models[j]).size_bytes
}

/// Putting a model in at `at` is placing it, where all models before `at`
/// are smaller and the one at `at` is not.
proof fn lemma_placed(model: OllamaModel, models: Seq<OllamaModel>, at: int)
    requires
        0 <= at <= models.len(),
        forall|k: int| 0 <= k < at ==> (#[trigger] models[k]).size_bytes < model.size_bytes,
        at < models.len() ==> model.size_bytes <= models[at].size_bytes,
    ensures
        placed(model, models) == models.insert(at, model),
    decreases at,
{
    if at == 0 {
        assert(models.insert(0, model) =~= seq![model] + models);
    } else {
        let rest = models.drop_first();
        assert forall|k: int| 0 <= k < at - 1 implies (#[trigger] rest[k]).size_bytes
            < model.size_bytes by {
            assert(rest[k] == models[k + 1]);
        }
        lemma_placed(model, rest, at - 1);
        assert(models.insert(at, model) =~= seq![models[0]] + rest.insert(at - 1, model));
    }
}

/// Placing a model in an ordered list gives an ordered list with the same
/// models and the one that was placed.
pub proof fn lemma_placed_ordered(model: OllamaModel, models: Seq<OllamaModel>)
    requires
        ordered_by_size(models),
    ensures
        ordered_by_size(placed(model, models)),
        placed(model, models).to_multiset() == models.to_multiset().insert(model),
        placed(model, models).len() == models.len() + 1,
    decreases models.len(),
{
    broadcast use vstd::seq_lib::group_to_multiset_ensures;

    if models.len() == 0 {
        assert(seq![model] =~= Seq::<OllamaModel>::empty().push(model));
    } else if model.size_bytes <= models[0].size_bytes {
        let out = seq![model] + models;
        assert forall|i: int, j: int| 0 <= i <= j < out.len() implies (#[trigger] out[i]).size_bytes
            <= (#[trigger] out[j]).size_bytes by {
            if i == 0 && j > 0 {
                assert(out[j] == models[j - 1]);
                assert(models[0].size_bytes <= models[j - 1].size_bytes);
            } else if i > 0 {
                assert(out[i] == models[i - 1]);
                assert(out[j] == models[j - 1]);
            }
        }
        assert(out =~= models.insert(0, model));
        vstd::seq_lib::to_multiset_insert(models, 0, model);
    } else {
        let rest = models.drop_first();
        assert forall|i: int, j: int| 0 <= i <= j < rest.len() implies (#[trigger] rest[i]).size_bytes
            <= (#[trigger] rest[j]).size_bytes by {
            assert(rest[i] == models[i + 1]);
            assert(rest[j] == models[j + 1]);
        }
        lemma_placed_ordered(model, rest);
        let tail = placed(model, rest);
        let out = seq![models[0]] + tail;
        assert forall|x: OllamaModel| tail.contains(x) implies models[0].size_bytes
            <= x.size_bytes by {
            assert(tail.to_multiset().count(x) > 0);
            if x != model {
                assert(rest.to_multiset().count(x) > 0);
                assert(rest.contains(x));
                let k = choose|k: int| 0 <= k < rest.len() && rest[k] == x;
                assert(rest[k] == models[k + 1]);
                assert(models[0].size_bytes <= models[k + 1].size_bytes);
            }
        }
        assert forall|i: int, j: int| 0 <= i <= j < out.len() implies (#[trigger] out[i]).size_bytes
            <= (#[trigger] out[j]).size_bytes by {
            if i == 0 && j > 0 {
                assert(out[j] == tail[j - 1]);
                assert(tail.contains(tail[j - 1]));
            } else if i > 0 {
                assert(out[i] == tail[i - 1]);
                assert(out[j] == tail[j - 1]);
            }
        }
        assert(out =~= tail.insert(0, models[0]));
        vstd::seq_lib::to_multiset_insert(tail, 0, models[0]);
        assert(models =~= rest.insert(0, models[0]));
        vstd::seq_lib::to_multiset_insert(rest, 0, models[0]);
        assert(out.to_multiset() =~= models.to_multiset().insert(model));
    }
}

/// The models in the order of their sizes are ordered by size, and are the
/// same models, each as often as before.
pub proof fn law_sorted_by_size(models: Seq<OllamaModel>)
    ensures
        ordered_by_size(sorted_by_size(models)),
        sorted_by_size(models).to_multiset() == models.to_multiset(),
        sorted_by_size(models).len() == models.len(),
    decreases models.len(),
{
    broadcast use vstd::seq_lib::group_to_multiset_ensures;

    if models.len() > 0 {
        let rest = models.drop_first();
        law_sorted_by_size(rest);
        lemma_placed_ordered(models[0], sorted_by_size(rest));
        assert(models =~= rest.insert(0, models[0]));
        vstd::seq_lib::to_multiset_insert(rest, 0, models[0]);
    }
}

impl OllamaModel {
    /// A model as the service lists it, by its name, its size and the time
    /// of its last change. Its category and timeout follow from its size.
    /// The number of its parameters is the one that is given, and else the
    /// one that its name tells.
    pub fn listed(
        name: String,
        size_bytes: u64,
        modified_at: String,
        parameter_size: Option<String>,
    ) -> (model: Self)
        ensures
            model.name == name,
            model.size_bytes == size_bytes,
            model.modified_at == modified_at,
            model.size_category == ModelSizeCategory::category_of(size_bytes),
            model.recommended_timeout_seconds == ModelSizeCategory::category_of(
                size_bytes,
            ).timeout_of(),
            match parameter_size {
                Some(given) => model.parameter_info == Some(given),
                None => match model.parameter_info {
                    Some(hint) => parameter_hint(name@) == Some(hint@),
                    None => parameter_hint(name@) is None,
                },
            },
    {
        let size_category = ModelSizeCategory::from_size_bytes(size_bytes);
        let parameter_info = match parameter_size {
            Some(given) => Some(given),
            None => {
                let n = name.as_str();
                if text_contains(n, "7b") || text_contains(n, "7B") {
                    Some("7B".to_owned())
                } else if text_contains(n, "13b") || text_contains(n, "13B") {
                    Some("13B".to_owned())
                } else if text_contains(n, "3b") || text_contains(n, "3B") {
                    Some("3B".to_owned())
                } else {
                    None
                }
            },
        };
        OllamaModel {
            name,
            size_bytes,
            size_category,
            recommended_timeout_seconds: size_category.recommended_timeout(),
            parameter_info,
            modified_at,
        }
    }
}

/// Puts the models in the order of their sizes, smallest first. Models of
/// one size keep their order.
pub fn sort_by_size(models: Vec<OllamaModel>) -> (sorted: Vec<OllamaModel>)
    ensures
        sorted@ == sorted_by_size(models@),
{
    let ghost all = models@;
    let mut rest = models;
    let mut sorted: Vec<OllamaModel> = Vec::new();
    assert(all.skip(all.len() as int) =~= Seq::<OllamaModel>::empty());
    while rest.len() > 0
        invariant
            rest@ == all.take(rest.len() as int),
            rest.len() <= all.len(),
            sorted@ == sorted_by_size(all.skip(rest.len() as int)),
        decreases rest.len(),
    {
        let ghost n = rest.len() - 1;
        let model = rest.pop().unwrap();
        assert(model == all[n]);
        assert(all.skip(n)[0] == model);
        assert(all.skip(n).drop_first() =~= all.skip(n + 1));
        let mut at: usize = 0;
        while at < sorted.len() && sorted[at].size_bytes < model.size_bytes
            invariant
                at <= sorted.len(),
                forall|k: int| 0 <= k < at ==> (#[trigger] sorted[k]).size_bytes < model.size_bytes,
            decreases sorted.len() - at,
        {
            at += 1;
        }
        proof {
            lemma_placed(model, sorted@, at as int);
        }
        sorted.insert(at, model);
        assert(rest@ =~= all.take(rest.len() as int));
    }
    assert(all.skip(0) =~= all);
    sorted
}

/// What is asked of the service next.
#[derive(Clone, Copy, Debug, PartialEq, Eq, Structural)]
pub enum ServiceRequest {
    /// The version of the service.
    Version,
    /// The models that the service has.
    Models,
    /// Nothing more.
    Done,
}

/// What is asked next, given what the check found so far: nothing of a
/// service that is not accessible, else its version, then its models, and
/// nothing after the models.
pub open spec fn request_after(
    result: OllamaValidationResult,
    asked_version: bool,
    asked_models: bool,
) -> ServiceRequest {
    if !result.service_accessible || asked_models {
        ServiceRequest::Done
    } else if !asked_version {
        ServiceRequest::Version
    } else {
        ServiceRequest::Models
    }
}

/// What is asked of the service next, given the result after the health
/// check and what was asked since.
pub fn next_request(result: &OllamaValidationResult, asked_version: bool, asked_models: bool) -> (r:
    ServiceRequest)
    ensures
        r == request_after(*result, asked_version, asked_models),
{
    if !result.service_accessible || asked_models {
        ServiceRequest::Done
    } else if !asked_version {
        ServiceRequest::Version
    } else {
        ServiceRequest::Models
    }
}

/// What the first request to the service showed: whether it answered with
/// success, or why no answer came.
pub open spec fn health_message(health: Result<bool, String>) -> Seq<Seq<char>> {
    match health {
        Ok(true) => Seq::empty(),
        Ok(false) => seq!["Ollama service health check failed"@],
        Err(reason) => seq!["Failed to connect to Ollama service: "@ + reason@],
    }
}

impl OllamaValidationResult {
    /// The result after the first request to the service. The service is
    /// accessible where it answered with success; else the result holds
    /// the message that says why it is not.
    pub fn after_health(health: Result<bool, String>) -> (result: Self)
        ensures
            result.service_accessible == (health == Ok::<bool, String>(true)),
            result.version is None,
            result.available_models@.len() == 0,
            result.missing_models@.len() == 0,
            result.response_time_ms == 0,
            result.total_models_available == 0,
            texts_of(result.error_messages@) == health_message(health),
    {
        let mut error_messages: Vec<String> = Vec::new();
        let service_accessible = match health {
            Ok(answer) => {
                if !answer {
                    error_messages.push("Ollama service health check failed".to_owned());
                }
                answer
            },
            Err(reason) => {
                let mut message = "Failed to connect to Ollama service: ".to_owned();
                message.append(reason.as_str());
                error_messages.push(message);
                false
            },
        };
        assert(texts_of(error_messages@) =~= health_message(health));
        OllamaValidationResult {
            service_accessible,
            version: None,
            available_models: Vec::new(),
            missing_models: Vec::new(),
            response_time_ms: 0,
            total_models_available: 0,
            error_messages,
        }
    }

    /// The result with what the request for the version gave: the version,
    /// or one more message that says why there is none.
    pub fn with_version(self, version: Result<String, String>) -> (result: Self)
        ensures
            match version {
                Ok(v) => result == (OllamaValidationResult { version: Some(v), ..self }),
                Err(reason) => {
                    &&& texts_of(result.error_messages@) == texts_of(self.error_messages@).push(
                        "Failed to get Ollama version: "@ + reason@,
                    )
                    &&& result.version is None
                    &&& result.service_accessible == self.service_accessible
                    &&& result.available_models == self.available_models
                    &&& result.missing_models == self.missing_models
                    &&& result.response_time_ms == self.response_time_ms
                    &&& result.total_models_available == self.total_models_available
                },
            },
    {
        let mut result = self;
        match version {
            Ok(v) => {
                result.version = Some(v);
            },
            Err(reason) => {
                let mut message = "Failed to get Ollama version: ".to_owned();
                message.append(reason.as_str());
                let ghost before = result.error_messages@;
                result.error_messages.push(message);
                result.version = None;
                assert(texts_of(result.error_messages@) =~= texts_of(before).push(message@));
            },
        }
        result
    }

    /// The result with what the request for the models gave: the models in
    /// the order of their sizes and their number, or no models and one more
    /// message that says why there are none.
    pub fn with_models(self, models: Result<Vec<OllamaModel>, String>) -> (result: Self)
        ensures
            result.service_accessible == self.service_accessible,
            result.version == self.version,
            result.missing_models == self.missing_models,
            result.response_time_ms == self.response_time_ms,
            match models {
                Ok(list) => {
                    &&& result.available_models@ == sorted_by_size(list@)
                    &&& result.total_models_available == list@.len()
                    &&& result.error_messages == self.error_messages
                },
                Err(reason) => {
                    &&& result.available_models@.len() == 0
                    &&& result.total_models_available == 0
                    &&& texts_of(result.error_messages@) == texts_of(self.error_messages@).push(
                        "Failed to retrieve model list: "@ + reason@,
                    )
                },
            },
    {
        let mut result = self;
        match models {
            Ok(list) => {
                result.total_models_available = list.len();
                result.available_models = sort_by_size(list);
            },
            Err(reason) => {
                let mut message = "Failed to retrieve model list: ".to_owned();
                message.append(reason.as_str());
                let ghost before = result.error_messages@;
                result.error_messages.push(message);
                result.available_models = Vec::new();
                result.total_models_available = 0;
                assert(texts_of(result.error_messages@) =~= texts_of(before).push(message@));
            },
        }
        result
    }

    /// The message on the missing models: their number and their names.
    pub open spec fn missing_message(missing: Seq<Seq<char>>) -> Seq<char> {
        decimal(missing.len()) + " required models are not available: "@ + joined(missing, ", "@)
    }

    /// The result with the required models that the service lacks. Where
    /// the service is accessible and lacks some, they are listed, and one
    /// more message names them; else the result stays as it is.
    pub fn with_required_models(self, required: &Vec<String>) -> (result: Self)
        ensures
            result.service_accessible == self.service_accessible,
            result.version == self.version,
            result.available_models == self.available_models,
            result.response_time_ms == self.response_time_ms,
            result.total_models_available == self.total_models_available,
            ({
                let missing = missing_of(texts_of(required@), names_of(self.available_models@));
                if self.service_accessible && required@.len() > 0 {
                    &&& texts_of(result.missing_models@) == missing
                    &&& texts_of(result.error_messages@) == if missing.len() > 0 {
                        texts_of(self.error_messages@).push(Self::missing_message(missing))
                    } else {
                        texts_of(self.error_messages@)
                    }
                } else {
                    &&& result.missing_models == self.missing_models
                    &&& result.error_messages == self.error_messages
                }
            }),
    {
        let mut result = self;
        if result.service_accessible && required.len() > 0 {
            let missing = missing_models(required, &result.available_models);
            if missing.len() > 0 {
                assert(Seq::new(missing@.len(), |i: int| missing@[i]@) =~= texts_of(missing@));
                let mut message = decimal_text(missing.len() as u128);
                message.append(" required models are not available: ");
                message.append(join_texts(&missing, ", ").as_str());
                let ghost before = result.error_messages@;
                result.error_messages.push(message);
                assert(message@ =~= Self::missing_message(texts_of(missing@)));
                assert(texts_of(result.error_messages@) =~= texts_of(before).push(message@));
            }
            result.missing_models = missing;
        }
        result
    }
}

} // verus!
