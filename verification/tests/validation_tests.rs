use data_compactor::evaluation::{EvaluationMetrics, EvaluationStatus, VisualizationGenerator};
use data_compactor::performance::{EvaluationTask, PerformanceConfig};
use data_compactor::validation::aipack::{AipackValidationResult, AipackValidator};
use data_compactor::validation::disk::{free_space_word, DiskValidator, ReportError};
use data_compactor::validation::ollama::{
    is_listed, missing_models, next_request, sort_by_size, timeout_recommendation,
    ModelSizeCategory, OllamaModel, OllamaValidationResult, ServiceRequest, GB,
};
use data_compactor::text::parse_u64;
use data_compactor::validation::{
    aipack_check, all_passed, available_memory, categorize_issues, generate_recommendations,
    metadata_count, ollama_check, resources_check, response_time, CheckResult, ValidationChecks,
    ASSUMED_MEMORY,
};

#[test]
fn test_model_size_category_from_bytes() {
    assert_eq!(ModelSizeCategory::from_size_bytes(500_000_000), ModelSizeCategory::Small);
    assert_eq!(ModelSizeCategory::from_size_bytes(2_000_000_000), ModelSizeCategory::Medium);
    assert_eq!(ModelSizeCategory::from_size_bytes(10_000_000_000), ModelSizeCategory::Large);
    assert_eq!(ModelSizeCategory::from_size_bytes(25_000_000_000), ModelSizeCategory::XL);
}

#[test]
fn test_model_size_category_timeouts() {
    assert_eq!(ModelSizeCategory::Small.recommended_timeout(), 30);
    assert_eq!(ModelSizeCategory::Medium.recommended_timeout(), 60);
    assert_eq!(ModelSizeCategory::Large.recommended_timeout(), 120);
    assert_eq!(ModelSizeCategory::XL.recommended_timeout(), 300);
}

#[test]
fn test_evaluation_task_creation() {
    let task = EvaluationTask {
        model: "llama3.2:3b".to_string(),
        prompt: "Test prompt".to_string(),
        cache_key: "test_key".to_string(),
    };

    assert_eq!(task.model, "llama3.2:3b");
    assert_eq!(task.prompt, "Test prompt");
}

#[test]
fn aipack_metadata_lists_what_is_there() {
    let valid = AipackValidationResult {
        is_valid: true,
        default_model: Some("codellama:7b".to_string()),
        error_messages: Vec::new(),
    };
    assert_eq!(
        valid.into_metadata(),
        vec![pair("config_valid", "true"), pair("default_model", "codellama:7b")]
    );
    let invalid = AipackValidationResult {
        is_valid: false,
        default_model: None,
        error_messages: vec!["first".to_string(), "second".to_string()],
    };
    assert_eq!(
        invalid.into_metadata(),
        vec![pair("config_valid", "false"), pair("error_messages", "first; second")]
    );
    assert_eq!(AipackValidator::new("a/b.toml").config_path, "a/b.toml");
    assert_eq!(DiskValidator::new(), DiskValidator);
}

fn model(name: &str, size_bytes: u64) -> OllamaModel {
    let size_category = ModelSizeCategory::from_size_bytes(size_bytes);
    OllamaModel {
        name: name.to_string(),
        size_bytes,
        size_category,
        recommended_timeout_seconds: size_category.recommended_timeout(),
        parameter_info: None,
        modified_at: "2024-01-01".to_string(),
    }
}

fn pair(name: &str, value: &str) -> (String, String) {
    (name.to_string(), value.to_string())
}

#[test]
fn ollama_metadata_counts_by_size() {
    let result = OllamaValidationResult {
        service_accessible: true,
        version: Some("0.1.2".to_string()),
        available_models: vec![
            model("tiny", 1),
            model("mid", 2_000_000_000),
            model("mid2", 5 * 1_073_741_824),
            model("huge", 30_000_000_000),
        ],
        missing_models: vec!["absent".to_string()],
        response_time_ms: 1205,
        total_models_available: 4,
        error_messages: Vec::new(),
    };
    assert_eq!(
        result.into_metadata(),
        vec![
            pair("service_accessible", "true"),
            pair("response_time_ms", "1205"),
            pair("available_model_count", "4"),
            pair("missing_model_count", "1"),
            pair("total_models_available", "4"),
            pair("ollama_version", "0.1.2"),
            pair("small_models_count", "1"),
            pair("medium_models_count", "2"),
            pair("large_models_count", "0"),
            pair("xl_models_count", "1"),
            pair("available_models", "tiny,mid,mid2,huge"),
            pair("missing_models", "absent"),
        ]
    );
}

#[test]
fn size_categories_at_their_borders() {
    let gb = 1_073_741_824u64;
    assert_eq!(ModelSizeCategory::from_size_bytes(0), ModelSizeCategory::Small);
    assert_eq!(ModelSizeCategory::from_size_bytes(gb), ModelSizeCategory::Small);
    assert_eq!(ModelSizeCategory::from_size_bytes(gb + 1), ModelSizeCategory::Medium);
    assert_eq!(ModelSizeCategory::from_size_bytes(5 * gb), ModelSizeCategory::Medium);
    assert_eq!(ModelSizeCategory::from_size_bytes(5 * gb + 1), ModelSizeCategory::Large);
    assert_eq!(ModelSizeCategory::from_size_bytes(20 * gb), ModelSizeCategory::Large);
    assert_eq!(ModelSizeCategory::from_size_bytes(20 * gb + 1), ModelSizeCategory::XL);
    assert_eq!(ModelSizeCategory::from_size_bytes(u64::MAX), ModelSizeCategory::XL);
}

#[test]
fn model_lists() {
    let available = vec![model("a", 1), model("b", 6_000_000_000), model("a", 30_000_000_000)];
    assert!(is_listed(&available, "b"));
    assert!(!is_listed(&available, "c"));
    assert_eq!(
        missing_models(&vec!["c".to_string(), "a".to_string(), "d".to_string()], &available),
        vec!["c".to_string(), "d".to_string()]
    );
    assert_eq!(timeout_recommendation(&available, "a"), 30);
    assert_eq!(timeout_recommendation(&available, "b"), 120);
    assert_eq!(timeout_recommendation(&available, "zzz"), 60);
}

fn metrics(name: &str, score: Option<u8>, status: EvaluationStatus) -> EvaluationMetrics {
    EvaluationMetrics {
        model_name: name.to_string(),
        score,
        duration_seconds: Some(45),
        prompt_tokens: Some(617),
        completion_tokens: None,
        model_size: "7B".to_string(),
        strengths: Vec::new(),
        issues: Vec::new(),
        primary_recommendation: None,
        status,
        timestamp: "now".to_string(),
        prompt_used: String::new(),
    }
}

#[test]
fn score_chart_draws_a_bar_for_each_result() {
    let all = vec![
        metrics("llama3.2:3b", Some(8), EvaluationStatus::Success),
        metrics("a-model-with-a-very-long-name", None, EvaluationStatus::ParseError),
        metrics("exactly-twenty-chars", Some(10), EvaluationStatus::Success),
    ];
    let chart = VisualizationGenerator::generate_score_chart(&all);
    let expected = "Model Performance Chart (Score out of 10)\n\
0    2    4    6    8    10\n\
|    |    |    |    |    |\n\
llama3.2:3b          ████████░░ 8/10\n\
a-model-with-a-ve... ░░░░░░░░░░ 0/10\n\
exactly-twenty-chars ██████████ 10/10\n";
    assert_eq!(chart, expected);
    assert_eq!(
        VisualizationGenerator::generate_score_chart(&Vec::new()),
        "Model Performance Chart (Score out of 10)\n0    2    4    6    8    10\n|    |    |    |    |    |\n"
    );
}

#[test]
fn comparison_table_has_a_row_for_each_result() {
    let mut timed_out = metrics("slow", Some(3), EvaluationStatus::Timeout);
    timed_out.duration_seconds = None;
    timed_out.completion_tokens = Some(377);
    let all = vec![
        metrics("fast", Some(9), EvaluationStatus::Success),
        timed_out,
        metrics("bad", None, EvaluationStatus::Failed),
        metrics("odd", Some(0), EvaluationStatus::ParseError),
    ];
    let table = VisualizationGenerator::generate_comparison_table(&all);
    let expected = "| Model | Visual Score | Score | Duration | Tokens (P/C) | Size | Status |\n\
|-------|-------------|-------|----------|--------------|------|--------|\n\
| fast | █████████░ | 9/10 | 45s | 617/0 | 7B | ✅ |\n\
| slow | ███░░░░░░░ | 3/10 | N/A | 617/377 | 7B | ⏰ |\n\
| bad | ░░░░░░░░░░ | 0/10 | 45s | 617/0 | 7B | ❌ |\n\
| odd | ░░░░░░░░░░ | 0/10 | 45s | 617/0 | 7B | ⚠\u{fe0f} |\n";
    assert_eq!(table, expected);
}

#[test]
fn prompt_is_replaced() {
    let m = metrics("m", Some(1), EvaluationStatus::Success).with_prompt_used("p".to_string());
    assert_eq!(m.prompt_used, "p");
    assert_eq!(m.model_name, "m");
}

fn check(passed: bool) -> CheckResult {
    CheckResult {
        passed,
        description: String::new(),
        message: String::new(),
        duration_ms: 0,
        metadata: Vec::new(),
    }
}

#[test]
fn issues_are_sorted_by_weight() {
    let checks = ValidationChecks {
        ollama_service: check(false),
        model_availability: check(false),
        disk_space: check(true),
        aipack_config: check(false),
        system_resources: check(false),
    };
    let (critical, warnings) = categorize_issues(&checks);
    assert_eq!(
        critical,
        vec![
            "Ollama service is not accessible - evaluation cannot proceed".to_string(),
            "AIPACK configuration is invalid - fix configuration before proceeding".to_string(),
        ]
    );
    assert_eq!(
        warnings,
        vec!["System resources may be insufficient for optimal performance".to_string()]
    );
    assert!(!all_passed(&checks));
    let fine = ValidationChecks {
        ollama_service: check(true),
        model_availability: check(true),
        disk_space: check(true),
        aipack_config: check(true),
        system_resources: check(true),
    };
    assert!(all_passed(&fine));
    assert_eq!(categorize_issues(&fine), (Vec::new(), Vec::new()));
}

#[test]
fn default_settings_run_at_most_four_at_a_time() {
    let config = PerformanceConfig::default();
    assert!(config.enable_cache);
    assert!(config.enable_warmup);
    assert!(config.enable_memory_optimization);
    assert!(config.enable_progress_tracking);
    assert!(config.max_concurrent_evaluations > 0);
    assert!(config.max_concurrent_evaluations <= 4);
    assert_eq!(config.max_concurrent_warmups, 2);
    assert_eq!(PerformanceConfig::for_cpus(2).max_concurrent_evaluations, 2);
    assert_eq!(PerformanceConfig::for_cpus(64).max_concurrent_evaluations, 4);
    assert_eq!(PerformanceConfig::for_cpus(64).cache_expiration_hours, 24);
}

#[test]
fn numbers_are_read_as_the_standard_library_reads_them() {
    for text in ["0", "7", "+7", "007", "5000", "18446744073709551615", "18446744073709551616",
        "", "+", "-1", "1 ", " 1", "1_000", "１２", "12a", "++1", "99999999999999999999999"] {
        assert_eq!(parse_u64(text), text.parse::<u64>().ok(), "{:?}", text);
    }
    assert_eq!(parse_u64("5001"), Some(5001));
    assert_eq!(parse_u64("18446744073709551615"), Some(u64::MAX));
    assert_eq!(parse_u64("18446744073709551616"), None);
}

#[test]
fn recommendations_follow_the_checks() {
    let mut slow_service = check(true);
    slow_service.metadata = vec![
        ("available_model_count".to_string(), "3".to_string()),
        ("response_time_ms".to_string(), "5001".to_string()),
    ];
    assert_eq!(response_time(&slow_service), Some(5001));
    let checks = ValidationChecks {
        ollama_service: slow_service,
        model_availability: check(true),
        disk_space: check(false),
        aipack_config: check(true),
        system_resources: check(true),
    };
    let list = generate_recommendations(&checks, "5.00");
    assert_eq!(list.len(), 2);
    assert_eq!(list[0].category, "Storage");
    assert_eq!(list[0].priority, "High");
    assert_eq!(
        list[0].action,
        "Free up disk space or change output directory. Need at least 5.00GB"
    );
    assert_eq!(list[1].category, "Performance");
    assert_eq!(list[1].priority, "Medium");

    let mut fast_service = check(false);
    fast_service.metadata = vec![("response_time_ms".to_string(), "5000".to_string())];
    let checks = ValidationChecks {
        ollama_service: fast_service,
        model_availability: check(true),
        disk_space: check(true),
        aipack_config: check(false),
        system_resources: check(false),
    };
    let list = generate_recommendations(&checks, "1.00");
    let categories: Vec<&str> = list.iter().map(|r| r.category.as_str()).collect();
    assert_eq!(categories, vec!["Service", "Configuration"]);
    assert_eq!(response_time(&check(true)), None);
}

#[test]
fn models_are_listed_with_what_their_size_and_name_tell() {
    let m = OllamaModel::listed("llama3.2:3b".to_string(), 2_000_000_000, "t".to_string(), None);
    assert_eq!(m.name, "llama3.2:3b");
    assert_eq!(m.size_bytes, 2_000_000_000);
    assert_eq!(m.size_category, ModelSizeCategory::Medium);
    assert_eq!(m.recommended_timeout_seconds, 60);
    assert_eq!(m.parameter_info, Some("3B".to_string()));
    assert_eq!(m.modified_at, "t");

    let named = |name: &str| OllamaModel::listed(name.to_string(), 1, String::new(), None);
    assert_eq!(named("codellama:7B").parameter_info, Some("7B".to_string()));
    assert_eq!(named("llama2:13b").parameter_info, Some("13B".to_string()));
    assert_eq!(named("mix-3b-7b").parameter_info, Some("7B".to_string()));
    assert_eq!(named("gemma").parameter_info, None);
    let given =
        OllamaModel::listed("x:7b".to_string(), 1, String::new(), Some("6.7B".to_string()));
    assert_eq!(given.parameter_info, Some("6.7B".to_string()));
}

#[test]
fn models_are_sorted_by_size_and_keep_their_order_within_a_size() {
    let list = vec![model("c", 30), model("a", 10), model("d", 30), model("b", 10), model("e", 5)];
    let sorted = sort_by_size(list);
    let names: Vec<&str> = sorted.iter().map(|m| m.name.as_str()).collect();
    assert_eq!(names, vec!["e", "a", "b", "c", "d"]);
    assert!(sort_by_size(Vec::new()).is_empty());
}

#[test]
fn service_result_is_put_together_step_by_step() {
    let down = OllamaValidationResult::after_health(Ok(false));
    assert!(!down.service_accessible);
    assert_eq!(down.error_messages, vec!["Ollama service health check failed"]);

    let unreachable = OllamaValidationResult::after_health(Err("refused".to_string()));
    assert!(!unreachable.service_accessible);
    assert_eq!(
        unreachable.error_messages,
        vec!["Failed to connect to Ollama service: refused"]
    );

    let up = OllamaValidationResult::after_health(Ok(true));
    assert!(up.service_accessible);
    assert!(up.error_messages.is_empty());
    assert_eq!(up.version, None);

    let versioned = up.clone().with_version(Ok("0.5.1".to_string()));
    assert_eq!(versioned.version, Some("0.5.1".to_string()));
    assert!(versioned.error_messages.is_empty());
    let unversioned = up.clone().with_version(Err("status 500".to_string()));
    assert_eq!(unversioned.version, None);
    assert_eq!(unversioned.error_messages, vec!["Failed to get Ollama version: status 500"]);

    let listed = versioned.with_models(Ok(vec![model("big", 9 * GB), model("small", GB)]));
    assert_eq!(listed.total_models_available, 2);
    assert_eq!(listed.available_models[0].name, "small");
    assert_eq!(listed.available_models[1].name, "big");
    let unlisted = unversioned.with_models(Err("timed out".to_string()));
    assert!(unlisted.available_models.is_empty());
    assert_eq!(
        unlisted.error_messages,
        vec!["Failed to get Ollama version: status 500", "Failed to retrieve model list: timed out"]
    );

    let required = vec!["small".to_string(), "absent".to_string(), "gone".to_string()];
    let checked = listed.clone().with_required_models(&required);
    assert_eq!(checked.missing_models, vec!["absent", "gone"]);
    assert_eq!(
        checked.error_messages,
        vec!["2 required models are not available: absent, gone"]
    );
    let content = listed.clone().with_required_models(&vec!["big".to_string()]);
    assert!(content.missing_models.is_empty());
    assert!(content.error_messages.is_empty());
    assert_eq!(listed.clone().with_required_models(&Vec::new()), listed);
    assert_eq!(down.clone().with_required_models(&required), down);
}

#[test]
fn checks_are_made_from_what_the_validators_found() {
    let found = OllamaValidationResult::after_health(Ok(true))
        .with_models(Ok(vec![model("a", 1), model("b", 2)]));
    let check = ollama_check(Ok(found.clone()), 12);
    assert!(check.passed);
    assert_eq!(check.description, "Ollama service health and model availability");
    assert_eq!(check.message, "Service responsive, 2 models available");
    assert_eq!(check.duration_ms, 12);
    assert_eq!(check.metadata, found.into_metadata());
    assert_eq!(metadata_count(&check, "available_model_count"), 2);
    assert_eq!(metadata_count(&check, "service_accessible"), 0);
    assert_eq!(metadata_count(&check, "absent"), 0);

    let failed = ollama_check(Err("no route".to_string()), 3);
    assert!(!failed.passed);
    assert_eq!(failed.message, "Ollama validation failed: no route");
    assert!(failed.metadata.is_empty());

    let valid = AipackValidationResult {
        is_valid: true,
        default_model: Some("llama3".to_string()),
        error_messages: Vec::new(),
    };
    let check = aipack_check(Ok(valid.clone()), 1);
    assert!(check.passed);
    assert_eq!(check.description, "AIPACK configuration validity");
    assert_eq!(check.message, "Config valid: true, Default model: llama3");
    assert_eq!(check.metadata, valid.into_metadata());
    let invalid = AipackValidationResult {
        is_valid: false,
        default_model: None,
        error_messages: vec!["broken".to_string()],
    };
    let check = aipack_check(Ok(invalid), 1);
    assert!(!check.passed);
    assert_eq!(check.message, "Config valid: false, Default model: None");
    let check = aipack_check(Err("no file".to_string()), 1);
    assert!(!check.passed);
    assert_eq!(check.message, "AIPACK config validation failed: no file");

    let check = resources_check(1_000_000_001, 1, "1.00", 7);
    assert!(check.passed);
    assert_eq!(check.description, "System resource availability");
    assert_eq!(check.message, "Memory: 1.00GB, CPUs: 1");
    assert_eq!(
        check.metadata,
        vec![pair("available_memory_bytes", "1000000001"), pair("cpu_count", "1")]
    );
    assert!(!resources_check(1_000_000_000, 8, "1.00", 7).passed);
    assert!(!resources_check(8_000_000_000, 0, "8.00", 7).passed);
}

#[test]
fn available_memory_is_read_from_the_report() {
    let report = "MemTotal:       16000000 kB\nMemFree:         1000000 kB\nMemAvailable:    8000000 kB\nBuffers: 1 kB\n";
    assert_eq!(available_memory(report), Some(8_192_000_000));
    assert_eq!(available_memory("MemTotal: 1 kB\n"), Some(ASSUMED_MEMORY));
    assert_eq!(available_memory(""), Some(4_000_000_000));
    assert_eq!(available_memory("MemAvailable: many kB"), None);
    assert_eq!(available_memory("MemAvailable: 18014398509481983"), Some(18014398509481983 * 1024));
    assert_eq!(available_memory("MemAvailable: 18014398509481984"), None);
    // A line with one word only is passed over.
    assert_eq!(available_memory("MemAvailable:\nMemAvailable: 2 kB"), Some(2048));
    assert_eq!(available_memory(" MemAvailable: 2 kB"), Some(ASSUMED_MEMORY));
}

#[test]
fn free_space_is_the_fourth_word_of_the_second_line() {
    let report = "\nFilesystem 1K-blocks Used Available Use% Mounted on\n/dev/sda1 100 40 60 40% /\n\n";
    assert_eq!(free_space_word(report), Ok("60".to_string()));
    assert_eq!(free_space_word("Filesystem 1K-blocks Used Available\n"), Err(ReportError::NoSecondLine));
    assert_eq!(free_space_word(""), Err(ReportError::NoSecondLine));
    assert_eq!(free_space_word("head\n/dev/sda1 100 40"), Err(ReportError::NoFourthWord));
    assert_eq!(free_space_word("head\n\tx  y\tz   free rest"), Ok("free".to_string()));
}

#[test]
fn test_performance_config_defaults() {
    let config = PerformanceConfig::default();

    assert!(config.enable_cache);
    assert!(config.enable_warmup);
    assert!(config.enable_memory_optimization);
    assert!(config.enable_progress_tracking);
    assert!(config.max_concurrent_evaluations > 0);
}

#[test]
fn configuration_that_was_read_is_valid() {
    let valid = AipackValidationResult::of_reading(Ok("codellama:7b".to_string()));
    assert!(valid.is_valid);
    assert_eq!(valid.default_model.unwrap(), "codellama:7b");
    assert!(valid.error_messages.is_empty());

    let invalid = AipackValidationResult::of_reading(Err("missing field `options`".to_string()));
    assert!(!invalid.is_valid);
    assert_eq!(invalid.default_model, None);
    assert_eq!(
        invalid.error_messages,
        vec!["Configuration parsing error: missing field `options`"]
    );
}

#[test]
fn service_is_asked_for_its_version_then_for_its_models() {
    let up = OllamaValidationResult::after_health(Ok(true));
    assert_eq!(next_request(&up, false, false), ServiceRequest::Version);
    assert_eq!(next_request(&up, true, false), ServiceRequest::Models);
    assert_eq!(next_request(&up, true, true), ServiceRequest::Done);
    assert_eq!(next_request(&up, false, true), ServiceRequest::Done);

    let down = OllamaValidationResult::after_health(Ok(false));
    assert_eq!(next_request(&down, false, false), ServiceRequest::Done);
    let unreachable = OllamaValidationResult::after_health(Err("refused".to_string()));
    assert_eq!(next_request(&unreachable, false, false), ServiceRequest::Done);
}
