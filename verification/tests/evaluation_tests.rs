use data_compactor::evaluation::{
    EvaluationMetrics, EvaluationParser, EvaluationStatus, VisualizationGenerator,
};

#[test]
fn test_score_extraction() {
    let parser = EvaluationParser::new();

    assert_eq!(parser.extract_score("**Score: 8/10**"), Some(8));
    assert_eq!(parser.extract_score("Score: 7/10"), Some(7));
    assert_eq!(parser.extract_score("Rating 9 out of 10"), Some(9));
    assert_eq!(parser.extract_score("No score here"), None);
}

#[test]
fn test_duration_extraction() {
    let parser = EvaluationParser::new();

    assert_eq!(parser.extract_duration("Duration: 45s"), Some(45));
    assert_eq!(parser.extract_duration("Duration: 2m 30s"), Some(150));
    assert_eq!(parser.extract_duration("**Duration:** 120s"), Some(120));
}

#[test]
fn test_token_extraction() {
    let parser = EvaluationParser::new();
    let content = "Prompt Tokens: 617 | Completion Tokens: 377";

    let (prompt, completion) = parser.extract_tokens(content);
    assert_eq!(prompt, Some(617));
    assert_eq!(completion, Some(377));
}

#[test]
fn test_model_size_estimation() {
    let parser = EvaluationParser::new();

    assert_eq!(parser.estimate_model_size("llama3.2:3b"), "3B");
    assert_eq!(parser.estimate_model_size("codellama:7b"), "7B");
    assert_eq!(parser.estimate_model_size("gemma3:27b"), "27B");
    assert_eq!(parser.estimate_model_size("unknown-model"), "Unknown");
}

#[test]
fn model_size_of_the_other_marks() {
    let parser = EvaluationParser::new();

    assert_eq!(parser.estimate_model_size("Llama3:8B"), "8B");
    assert_eq!(parser.estimate_model_size("llama3:70b"), "70B");
    assert_eq!(parser.estimate_model_size("mistral:latest"), "Variable");
    assert_eq!(parser.estimate_model_size(""), "Unknown");
}

#[test]
fn score_above_ten_is_passed_over() {
    let parser = EvaluationParser::new();

    assert_eq!(parser.extract_score("Score: 11/10"), None);
    assert_eq!(parser.extract_score("Score: 300/10"), None);
    assert_eq!(parser.extract_score("Score: 0/10"), Some(0));
    assert_eq!(parser.extract_score("Score: 10/10"), Some(10));
    assert_eq!(parser.extract_score("Score: 007/10"), Some(7));
    // Each pattern is asked for its first match only.
    assert_eq!(parser.extract_score("**Score: 12/10** or 4/10"), None);
    assert_eq!(parser.extract_score("4/10 or **Score: 12/10**"), Some(4));
    assert_eq!(parser.extract_score("Score: 99999999999999999999999/10"), None);
}

#[test]
fn duration_of_other_shapes() {
    let parser = EvaluationParser::new();

    assert_eq!(parser.extract_duration("no duration"), None);
    assert_eq!(parser.extract_duration("took 3s 20ms"), Some(200));
    assert_eq!(parser.extract_duration("Duration: 0m 0s"), Some(0));
    assert_eq!(
        parser.extract_duration("Duration: 18446744073709551615s"),
        Some(18446744073709551615)
    );
    assert_eq!(parser.extract_duration("Duration: 18446744073709551616s"), None);
    assert_eq!(parser.extract_duration("Duration: 18446744073709551615m 59s"), None);
}

#[test]
fn last_count_of_tokens_stands() {
    let parser = EvaluationParser::new();

    assert_eq!(parser.extract_tokens("nothing"), (None, None));
    assert_eq!(parser.extract_tokens("Prompt Tokens: 1\nPrompt Tokens: 2"), (Some(2), None));
    assert_eq!(
        parser.extract_tokens("Input tokens: 5, Output tokens: 6, Prompt Tokens: 7"),
        (Some(5), Some(6))
    );
    assert_eq!(parser.extract_tokens("Output tokens: 4294967295"), (None, Some(4294967295)));
    assert_eq!(parser.extract_tokens("Output tokens: 4294967296"), (None, None));
}

#[test]
fn list_items_are_read_without_their_marks() {
    let parser = EvaluationParser::new();

    assert_eq!(
        parser.parse_list_items("1. First point\n2.   Second point  \n- third\n* fourth\nplain"),
        vec!["First point", "Second point", "third", "fourth"]
    );
    assert!(parser.parse_list_items("no list").is_empty());
    assert!(parser.parse_list_items("").is_empty());
}

#[test]
fn strengths_and_issues_from_lists() {
    let parser = EvaluationParser::new();
    let content = "**Score: 8/10**\n**Strengths:**\n1. Clear structure\n2. Good naming\n\n**Issues:**\n- Missing tests\n- Slow start\n";

    assert_eq!(parser.extract_strengths(content), vec!["Clear structure", "Good naming"]);
    assert_eq!(parser.extract_issues(content), vec!["Missing tests", "Slow start"]);
}

#[test]
fn findings_by_keywords_where_there_is_no_list() {
    let parser = EvaluationParser::new();
    let content = "Overview\nNotable strengths of the work\n  a good start  \nnothing to see\nEXCELLENT naming\n**Next**\nwell after the end\n";

    assert_eq!(
        parser.extract_by_keywords(content, "strengths", &vec!["good", "excellent", "well"]),
        vec!["a good start", "EXCELLENT naming"]
    );
    assert!(parser.extract_by_keywords(content, "absent", &vec!["good"]).is_empty());
    assert!(parser.extract_by_keywords("", "strengths", &vec!["good"]).is_empty());
}

#[test]
fn keyword_search_ends_behind_the_tenth_line() {
    let parser = EvaluationParser::new();
    let mut content = String::from("strengths\n");
    for i in 1..=12 {
        content.push_str(&format!("good line {}\n", i));
    }

    let found = parser.extract_by_keywords(&content, "strengths", &vec!["good"]);
    assert_eq!(found.len(), 10);
    assert_eq!(found[0], "good line 1");
    assert_eq!(found[9], "good line 10");
}

#[test]
fn a_second_heading_starts_the_count_anew() {
    let parser = EvaluationParser::new();
    let mut content = String::from("strengths\n");
    for i in 1..=8 {
        content.push_str(&format!("good line {}\n", i));
    }
    content.push_str("more Strengths\n");
    for i in 9..=12 {
        content.push_str(&format!("good line {}\n", i));
    }

    let found = parser.extract_by_keywords(&content, "strengths", &vec!["good"]);
    assert_eq!(found.len(), 12);
}

#[test]
fn recommendation_is_read_to_the_end_of_its_line() {
    let parser = EvaluationParser::new();

    assert_eq!(
        parser.extract_recommendation("**Primary Recommendation:**  Use smaller batches \n**Next**"),
        Some("Use smaller batches".to_string())
    );
    assert_eq!(
        parser.extract_recommendation("My recommendation: add tests\nmore"),
        Some("add tests".to_string())
    );
    assert_eq!(parser.extract_recommendation("nothing of the kind"), None);
}

#[test]
fn status_follows_the_content() {
    let parser = EvaluationParser::new();

    assert_eq!(parser.determine_status("An ERROR occurred, Score: 8/10"), EvaluationStatus::Failed);
    assert_eq!(parser.determine_status("the run Failed"), EvaluationStatus::Failed);
    assert_eq!(parser.determine_status("request timed out"), EvaluationStatus::Timeout);
    assert_eq!(parser.determine_status("Timeout reached"), EvaluationStatus::Timeout);
    assert_eq!(parser.determine_status("**Status:** Success"), EvaluationStatus::Success);
    assert_eq!(parser.determine_status("nothing to read"), EvaluationStatus::ParseError);
    assert_eq!(parser.determine_status("Score: 8/10"), EvaluationStatus::Success);
}

#[test]
fn whole_evaluation_is_read() {
    let parser = EvaluationParser::new();
    let content = "**Score: 8/10**\nDuration: 45s\nPrompt Tokens: 617 | Completion Tokens: 377\n**Strengths:**\n1. Clear structure\n\n**Issues:**\n- Slow start\n\n**Primary Recommendation:** Cache the model";

    let metrics = parser.parse_evaluation_with_prompt(content, "llama3.2:3b", "the prompt");
    assert_eq!(metrics.model_name, "llama3.2:3b");
    assert_eq!(metrics.score, Some(8));
    assert_eq!(metrics.duration_seconds, Some(45));
    assert_eq!(metrics.prompt_tokens, Some(617));
    assert_eq!(metrics.completion_tokens, Some(377));
    assert_eq!(metrics.model_size, "3B");
    assert_eq!(metrics.strengths, vec!["Clear structure"]);
    assert_eq!(metrics.issues, vec!["Slow start"]);
    assert_eq!(metrics.primary_recommendation, Some("Cache the model".to_string()));
    assert_eq!(metrics.status, EvaluationStatus::Success);
    assert_eq!(metrics.prompt_used, "the prompt");
    assert!(!metrics.timestamp.is_empty());

    let plain = parser.parse_evaluation(content, "llama3.2:3b");
    assert_eq!(plain.prompt_used, "");
    assert_eq!(plain.score, Some(8));
}

#[test]
fn fresh_metrics_hold_nothing_but_the_names() {
    let metrics = EvaluationMetrics::new_with_prompt("m".to_string(), "p".to_string());
    assert_eq!(metrics.model_name, "m");
    assert_eq!(metrics.prompt_used, "p");
    assert_eq!(metrics.score, None);
    assert_eq!(metrics.duration_seconds, None);
    assert_eq!(metrics.prompt_tokens, None);
    assert_eq!(metrics.completion_tokens, None);
    assert_eq!(metrics.model_size, "Unknown");
    assert!(metrics.strengths.is_empty());
    assert!(metrics.issues.is_empty());
    assert_eq!(metrics.primary_recommendation, None);
    assert_eq!(metrics.status, EvaluationStatus::Success);
    assert!(metrics.timestamp.contains('T'));
}

fn result(name: &str, score: Option<u8>, status: EvaluationStatus) -> EvaluationMetrics {
    let mut metrics = EvaluationMetrics::new_with_prompt(name.to_string(), String::new());
    metrics.score = score;
    metrics.status = status;
    metrics
}

#[test]
fn statistics_name_the_first_best_and_the_first_worst() {
    let list = vec![
        result("a", Some(7), EvaluationStatus::Success),
        result("b", None, EvaluationStatus::ParseError),
        result("c", Some(9), EvaluationStatus::Success),
        result("d", Some(9), EvaluationStatus::Failed),
        result("e", Some(3), EvaluationStatus::Success),
        result("f", Some(3), EvaluationStatus::Timeout),
    ];

    assert_eq!(VisualizationGenerator::score_totals(&list), (31, 5));
    assert_eq!(
        VisualizationGenerator::generate_statistics(&list, "6.2"),
        "- **Average Score:** 6.2/10\n- **Best Performer:** c (9/10)\n- **Needs Improvement:** e (3/10)\n- **Successful Evaluations:** 3/6\n- **Total Models Evaluated:** 6\n"
    );
}

#[test]
fn statistics_without_scores_only_count() {
    let list = vec![result("a", None, EvaluationStatus::Failed)];

    assert_eq!(VisualizationGenerator::score_totals(&list), (0, 0));
    assert_eq!(
        VisualizationGenerator::generate_statistics(&list, ""),
        "- **Successful Evaluations:** 0/1\n- **Total Models Evaluated:** 1\n"
    );
    assert_eq!(
        VisualizationGenerator::generate_statistics(&Vec::new(), ""),
        "- **Successful Evaluations:** 0/0\n- **Total Models Evaluated:** 0\n"
    );
}
