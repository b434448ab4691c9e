use vstd::prelude::*;
use crate::dictionary::texts_of;
use vstd::string::StringExecFns;
use crate::fields::{pairs_of, second_for, short_of, TableView};
use crate::patterns::{lines_in, lines_of, words_in, words_of};
use crate::text::{
    decimal, decimal_text, parse_u64, spelled_u64, starts_with, text_starts_with, truth_name,
    truth_text,
};
use crate::validation::aipack::AipackValidationResult;
use crate::validation::ollama::OllamaValidationResult;

pub mod aipack;
pub mod disk;
pub mod ollama;

verus! {

/// Adds a pair of a name and a value at the end of `metadata`.
pub fn put(metadata: &mut Vec<(String, String)>, name: &str, value: String)
    ensures
        pairs_of(final(metadata)@) == pairs_of(old(metadata)@).push((name@, value@)),
{
    metadata.push((name.to_owned(), value));
    assert(pairs_of(metadata@) =~= pairs_of(old(metadata)@).push((name@, value@)));
}

/// The outcome of one check, with what it measured.
#[derive(Clone, Debug, PartialEq, Eq)]
pub struct CheckResult {
    pub passed: bool,
    pub description: String,
    pub message: String,
    pub duration_ms: u64,
    /// Pairs of a name and a value, each name once.
    pub metadata: Vec<(String, String)>,
}

/// The outcomes of all checks of a run.
#[derive(Clone, Debug, PartialEq, Eq)]
pub struct ValidationChecks {
    pub ollama_service: CheckResult,
    pub model_availability: CheckResult,
    pub disk_space: CheckResult,
    pub aipack_config: CheckResult,
    pub system_resources: CheckResult,
}

/// An advice that follows from a failed or slow check.
#[derive(Clone, Debug, PartialEq, Eq)]
pub struct ValidationRecommendation {
    pub category: String,
    pub description: String,
    pub priority: String,
    pub action: String,
}

/// The critical issues that the checks give rise to: one for a failed
/// check of the service, of the configuration and of the disk space, in
/// this order.
pub open spec fn critical_issues_of(checks: ValidationChecks) -> Seq<Seq<char>> {
    (if !checks.ollama_service.passed {
        seq!["Ollama service is not accessible - evaluation cannot proceed"@]
    } else {
        Seq::empty()
    }) + (if !checks.aipack_config.passed {
        seq!["AIPACK configuration is invalid - fix configuration before proceeding"@]
    } else {
        Seq::empty()
    }) + (if !checks.disk_space.passed {
        seq!["Insufficient disk space for evaluation outputs"@]
    } else {
        Seq::empty()
    })
}

/// The warnings that the checks give rise to.
pub open spec fn warnings_of(checks: ValidationChecks) -> Seq<Seq<char>> {
    if !checks.system_resources.passed {
        seq!["System resources may be insufficient for optimal performance"@]
    } else {
        Seq::empty()
    }
}

/// Sorts what failed into critical issues and warnings.
pub fn categorize_issues(checks: &ValidationChecks) -> (r: (Vec<String>, Vec<String>))
    ensures
        texts_of(r.0@) == critical_issues_of(*checks),
        texts_of(r.1@) == warnings_of(*checks),
{
    let mut critical_issues: Vec<String> = Vec::new();
    let mut warnings: Vec<String> = Vec::new();
    if !checks.ollama_service.passed {
        critical_issues.push(
            "Ollama service is not accessible - evaluation cannot proceed".to_owned(),
        );
    }
    if !checks.aipack_config.passed {
        critical_issues.push(
            "AIPACK configuration is invalid - fix configuration before proceeding".to_owned(),
        );
    }
    if !checks.disk_space.passed {
        critical_issues.push("Insufficient disk space for evaluation outputs".to_owned());
    }
    if !checks.system_resources.passed {
        warnings.push("System resources may be insufficient for optimal performance".to_owned());
    }
    assert(texts_of(critical_issues@) =~= critical_issues_of(*checks));
    assert(texts_of(warnings@) =~= warnings_of(*checks));
    (critical_issues, warnings)
}

/// Whether every check passed.
pub fn all_passed(checks: &ValidationChecks) -> (r: bool)
    ensures
        r == (checks.ollama_service.passed && checks.disk_space.passed
            && checks.aipack_config.passed && checks.system_resources.passed),
{
    checks.ollama_service.passed && checks.disk_space.passed && checks.aipack_config.passed
        && checks.system_resources.passed
}

/// The content of a [`ValidationRecommendation`].
pub struct RecommendationView {
    pub category: Seq<char>,
    pub description: Seq<char>,
    pub priority: Seq<char>,
    pub action: Seq<char>,
}

impl View for ValidationRecommendation {
    type V = RecommendationView;

    open spec fn view(&self) -> RecommendationView {
        RecommendationView {
            category: self.category@,
            description: self.description@,
            priority: self.priority@,
            action: self.action@,
        }
    }
}

/// The contents of a list of recommendations, in order.
pub open spec fn recommendations_view(list: Seq<ValidationRecommendation>) -> Seq<
    RecommendationView,
> {
    Seq::new(list.len(), |i: int| list[i]@)
}

/// The response time that the check of the service measured, in
/// milliseconds, where its metadata hold one.
pub open spec fn response_time_of(check: CheckResult) -> Option<u64> {
    match short_of(pairs_of(check.metadata@), "response_time_ms"@) {
        Some(text) => spelled_u64(text),
        None => None,
    }
}

/// The service takes more than five seconds to answer.
pub open spec fn slow(checks: ValidationChecks) -> bool {
    match response_time_of(checks.ollama_service) {
        Some(ms) => ms > 5000,
        None => false,
    }
}

/// What is recommended after the checks: an advice for a failed check of
/// the service, of the disk space and of the configuration, and one for a
/// service that is slow, in this order. `space` is the disk space that is
/// needed, as it is shown.
pub open spec fn recommendations_of(checks: ValidationChecks, space: Seq<char>) -> Seq<
    RecommendationView,
> {
    (if !checks.ollama_service.passed {
        seq![
            RecommendationView {
                category: "Service"@,
                description: "Ollama service is not responding properly"@,
                priority: "High"@,
                action: "Start Ollama service with 'ollama serve' and verify it's accessible at the configured URL"@,
            },
        ]
    } else {
        Seq::empty()
    }) + (if !checks.disk_space.passed {
        seq![
            RecommendationView {
                category: "Storage"@,
                description: "Insufficient disk space for evaluation outputs"@,
                priority: "High"@,
                action: "Free up disk space or change output directory. Need at least "@ + space
                    + "GB"@,
            },
        ]
    } else {
        Seq::empty()
    }) + (if !checks.aipack_config.passed {
        seq![
            RecommendationView {
                category: "Configuration"@,
                description: "AIPACK configuration file has issues"@,
                priority: "High"@,
                action: "Review and fix AIPACK configuration file syntax and model references"@,
            },
        ]
    } else {
        Seq::empty()
    }) + (if slow(checks) {
        seq![
            RecommendationView {
                category: "Performance"@,
                description: "Ollama service response time is slow"@,
                priority: "Medium"@,
                action: "Consider optimizing Ollama configuration or checking system resources"@,
            },
        ]
    } else {
        Seq::empty()
    })
}

/// The response time that the check of the service measured.
pub fn response_time(check: &CheckResult) -> (r: Option<u64>)
    ensures
        r == response_time_of(*check),
{
    match second_for(&check.metadata, "response_time_ms") {
        Some(text) => parse_u64(text.as_str()),
        None => None,
    }
}

/// Adds a recommendation at the end of `list`.
fn recommend(
    list: &mut Vec<ValidationRecommendation>,
    category: &str,
    description: &str,
    priority: &str,
    action: String,
)
    ensures
        recommendations_view(final(list)@) == recommendations_view(old(list)@).push(
            RecommendationView {
                category: category@,
                description: description@,
                priority: priority@,
                action: action@,
            },
        ),
{
    list.push(
        ValidationRecommendation {
            category: category.to_owned(),
            description: description.to_owned(),
            priority: priority.to_owned(),
            action,
        },
    );
    assert(recommendations_view(list@) =~= recommendations_view(old(list)@).push(
        RecommendationView {
            category: category@,
            description: description@,
            priority: priority@,
            action: action@,
        },
    ));
}

/// What is recommended after the checks. `space` is the disk space that is
/// needed, as it is shown.
pub fn generate_recommendations(checks: &ValidationChecks, space: &str) -> (list: Vec<
    ValidationRecommendation,
>)
    ensures
        recommendations_view(list@) == recommendations_of(*checks, space@),
{
    let mut list: Vec<ValidationRecommendation> = Vec::new();
    assert(recommendations_view(list@) =~= Seq::<RecommendationView>::empty());
    if !checks.ollama_service.passed {
        recommend(
            &mut list,
            "Service",
            "Ollama service is not responding properly",
            "High",
            "Start Ollama service with 'ollama serve' and verify it's accessible at the configured URL".to_owned(),
        );
    }
    if !checks.disk_space.passed {
        let mut action = "Free up disk space or change output directory. Need at least ".to_owned();
        action.append(space);
        action.append("GB");
        recommend(
            &mut list,
            "Storage",
            "Insufficient disk space for evaluation outputs",
            "High",
            action,
        );
    }
    if !checks.aipack_config.passed {
        recommend(
            &mut list,
            "Configuration",
            "AIPACK configuration file has issues",
            "High",
            "Review and fix AIPACK configuration file syntax and model references".to_owned(),
        );
    }
    let is_slow = match response_time(&checks.ollama_service) {
        Some(ms) => ms > 5000,
        None => false,
    };
    if is_slow {
        recommend(
            &mut list,
            "Performance",
            "Ollama service response time is slow",
            "Medium",
            "Consider optimizing Ollama configuration or checking system resources".to_owned(),
        );
    }
    assert(recommendations_view(list@) =~= recommendations_of(*checks, space@));
    list
}

/// The number that the metadata of a check hold under `name`; 0 where
/// they hold none there.
pub open spec fn count_in(check: CheckResult, name: Seq<char>) -> nat {
    match short_of(pairs_of(check.metadata@), name) {
        Some(text) => match spelled_u64(text) {
            Some(n) => n as nat,
            None => 0,
        },
        None => 0,
    }
}

/// The number that the metadata of a check hold under `name`.
pub fn metadata_count(check: &CheckResult, name: &str) -> (n: u64)
    ensures
        n == count_in(*check, name@),
{
    match second_for(&check.metadata, name) {
        Some(text) => match parse_u64(text.as_str()) {
            Some(n) => n,
            None => 0,
        },
        None => 0,
    }
}

/// The check of the model service, from what the validator found or the
/// reason why it found nothing.
pub fn ollama_check(outcome: Result<OllamaValidationResult, String>, duration_ms: u64) -> (check:
    CheckResult)
    ensures
        check.description@ == "Ollama service health and model availability"@,
        check.duration_ms == duration_ms,
        match outcome {
            Ok(found) => {
                &&& check.passed
                &&& check.message@ == "Service responsive, "@ + decimal(
                    found.available_models@.len(),
                ) + " models available"@
                &&& pairs_of(check.metadata@) == ollama::metadata_of(found)
            },
            Err(reason) => {
                &&& !check.passed
                &&& check.message@ == "Ollama validation failed: "@ + reason@
                &&& check.metadata@.len() == 0
            },
        },
{
    let description = "Ollama service health and model availability".to_owned();
    match outcome {
        Ok(found) => {
            let mut message = "Service responsive, ".to_owned();
            message.append(decimal_text(found.available_models.len() as u128).as_str());
            message.append(" models available");
            CheckResult {
                passed: true,
                description,
                message,
                duration_ms,
                metadata: found.into_metadata(),
            }
        },
        Err(reason) => {
            let mut message = "Ollama validation failed: ".to_owned();
            message.append(reason.as_str());
            CheckResult { passed: false, description, message, duration_ms, metadata: Vec::new() }
        },
    }
}

/// The default model as a check names it: `None` where there is none.
pub open spec fn model_name(model: Option<String>) -> Seq<char> {
    match model {
        Some(name) => name@,
        None => "None"@,
    }
}

/// The check of the pack configuration, from what the validator found or
/// the reason why it found nothing.
pub fn aipack_check(outcome: Result<AipackValidationResult, String>, duration_ms: u64) -> (check:
    CheckResult)
    ensures
        check.description@ == "AIPACK configuration validity"@,
        check.duration_ms == duration_ms,
        match outcome {
            Ok(found) => {
                &&& check.passed == found.is_valid
                &&& check.message@ == "Config valid: "@ + truth_name(found.is_valid)
                    + ", Default model: "@ + model_name(found.default_model)
                &&& pairs_of(check.metadata@) == aipack::metadata_of(found)
            },
            Err(reason) => {
                &&& !check.passed
                &&& check.message@ == "AIPACK config validation failed: "@ + reason@
                &&& check.metadata@.len() == 0
            },
        },
{
    let description = "AIPACK configuration validity".to_owned();
    match outcome {
        Ok(found) => {
            let mut message = "Config valid: ".to_owned();
            message.append(truth_text(found.is_valid).as_str());
            message.append(", Default model: ");
            match &found.default_model {
                Some(name) => {
                    message.append(name.as_str());
                },
                None => {
                    message.append("None");
                },
            }
            CheckResult {
                passed: found.is_valid,
                description,
                message,
                duration_ms,
                metadata: found.into_metadata(),
            }
        },
        Err(reason) => {
            let mut message = "AIPACK config validation failed: ".to_owned();
            message.append(reason.as_str());
            CheckResult { passed: false, description, message, duration_ms, metadata: Vec::new() }
        },
    }
}

/// The metadata of the check of the system resources.
pub open spec fn resources_metadata(available_memory: u64, cpu_count: usize) -> TableView {
    seq![
        ("available_memory_bytes"@, decimal(available_memory as nat)),
        ("cpu_count"@, decimal(cpu_count as nat)),
    ]
}

/// The check of the system resources: it passes where more than a billion
/// bytes of memory are available and there is a processor. `memory_text`
/// is the available memory as the message shows it.
pub fn resources_check(
    available_memory: u64,
    cpu_count: usize,
    memory_text: &str,
    duration_ms: u64,
) -> (check: CheckResult)
    ensures
        check.passed == (available_memory > 1_000_000_000 && cpu_count > 0),
        check.description@ == "System resource availability"@,
        check.message@ == "Memory: "@ + memory_text@ + "GB, CPUs: "@ + decimal(cpu_count as nat),
        check.duration_ms == duration_ms,
        pairs_of(check.metadata@) == resources_metadata(available_memory, cpu_count),
{
    let mut metadata: Vec<(String, String)> = Vec::new();
    assert(pairs_of(metadata@) =~= TableView::empty());
    put(&mut metadata, "available_memory_bytes", decimal_text(available_memory as u128));
    put(&mut metadata, "cpu_count", decimal_text(cpu_count as u128));
    assert(pairs_of(metadata@) =~= resources_metadata(available_memory, cpu_count));
    let mut message = "Memory: ".to_owned();
    message.append(memory_text);
    message.append("GB, CPUs: ");
    message.append(decimal_text(cpu_count as u128).as_str());
    CheckResult {
        passed: available_memory > 1_000_000_000 && cpu_count > 0,
        description: "System resource availability".to_owned(),
        message,
        duration_ms,
        metadata,
    }
}

/// The memory that is assumed where the system does not tell: four billion
/// bytes.
pub const ASSUMED_MEMORY: u64 = 4_000_000_000;

/// The available memory in bytes that the lines of a memory report tell:
/// 1024 times the number that the second word of the first line spells
/// that begins with `MemAvailable:` and has two words. Where no line does,
/// it is the assumed memory. `None` where the word spells no number, or
/// one whose bytes do not fit 64 bits.
pub open spec fn memory_in(lines: Seq<Seq<char>>) -> Option<u64>
    decreases lines.len(),
{
    if lines.len() == 0 {
        Some(ASSUMED_MEMORY)
    } else if starts_with(lines[0], "MemAvailable:"@) && words_in(lines[0]).len() >= 2 {
        match spelled_u64(words_in(lines[0])[1]) {
            Some(kb) => if kb * 1024 <= u64::MAX {
                Some((kb * 1024) as u64)
            } else {
                None
            },
            None => None,
        }
    } else {
        memory_in(lines.drop_first())
    }
}

/// The available memory in bytes that a memory report tells.
pub fn available_memory(report: &str) -> (r: Option<u64>)
    ensures
        r == memory_in(lines_in(report@)),
{
    let lines = lines_of(report);
    let ghost all = texts_of(lines@);
    let mut i: usize = 0;
    assert(all.skip(0) =~= all);
    while i < lines.len()
        invariant
            i <= lines.len(),
            all == texts_of(lines@),
            all == lines_in(report@),
            memory_in(all.skip(i as int)) == memory_in(all),
        decreases lines.len() - i,
    {
        assert(all.skip(i as int)[0] == lines[i as int]@);
        assert(all.skip(i as int).drop_first() =~= all.skip(i + 1));
        let line = lines[i].as_str();
        if text_starts_with(line, "MemAvailable:") {
            let words = words_of(line);
            if words.len() >= 2 {
                assert(texts_of(words@)[1] == words[1]@);
                return match parse_u64(words[1].as_str()) {
                    Some(kb) => {
                        if kb <= 0x3f_ffff_ffff_ffff {
                            Some(kb * 1024)
                        } else {
                            None
                        }
                    },
                    None => None,
                };
            }
        }
        i += 1;
    }
    Some(ASSUMED_MEMORY)
}

} // verus!
