use agent_laboratory::agents::paper::analysis_prompt;
use agent_laboratory::agents::paper::AnalysisDepth;
use agent_laboratory::agents::paper::PaperAgentConfig;
use agent_laboratory::agents::research::experiment_plan;
use agent_laboratory::agents::research::ResearchAgentConfig;
use agent_laboratory::agents::research::ResearchStyle;
use agent_laboratory::agents::AgentConfig;
use agent_laboratory::llm::build_messages;
use agent_laboratory::llm::llm_config_for;
use agent_laboratory::llm::tokenize::estimate_input_tokens;
use agent_laboratory::interaction::CommandType;
use agent_laboratory::llm::LLMConfig;
use agent_laboratory::tools::arxiv::format_extracted_text;
use agent_laboratory::tools::arxiv::pdf_url_for;
use agent_laboratory::tools::arxiv::prepare_search_query;
use agent_laboratory::utils::error::AgentError;
use agent_laboratory::utils::file_ops::FileOps;
use agent_laboratory::utils::init::credentials_present;
use agent_laboratory::utils::init::InitManager;

fn base_config() -> AgentConfig {
    AgentConfig {
        model: "deepseek-chat".to_string(),
        temperature_milli: 700,
        max_tokens: 1000,
        api_key: "test_key".to_string(),
    }
}

#[test]
fn default_llm_config_targets_o1_mini() {
    let c = LLMConfig::default();
    assert_eq!(c.temperature_milli, None);
    assert_eq!(c.max_tokens, None);
    assert_eq!(c.model, "o1-mini");
    assert_eq!(c.version, "1.5");
}

#[test]
fn llm_config_carries_the_agent_settings() {
    let c = llm_config_for(&base_config());
    assert_eq!(c.temperature_milli, Some(700));
    assert_eq!(c.max_tokens, Some(1000));
    assert_eq!(c.model, "deepseek-chat");
    assert_eq!(c.version, "1.5");
}

#[test]
fn requests_carry_a_system_and_a_user_message() {
    let ms = build_messages("be helpful", "what is a monad?");
    assert_eq!(ms.len(), 2);
    assert_eq!(ms[0].role, "system");
    assert_eq!(ms[0].content, "be helpful");
    assert_eq!(ms[1].role, "user");
    assert_eq!(ms[1].content, "what is a monad?");
}

#[test]
fn token_estimates_are_deterministic() {
    let a = estimate_input_tokens("system prompt", "user prompt");
    let b = estimate_input_tokens("system prompt", "user prompt");
    assert_eq!(a, b);
    assert!(a > 0);
    assert_eq!(estimate_input_tokens("", ""), 0);
}

#[test]
fn search_queries_are_form_urlencoded() {
    assert_eq!(prepare_search_query("quantum computing"), "quantum+computing");
    assert_eq!(prepare_search_query("a&b"), "a%26b");
    assert_eq!(prepare_search_query(""), "");
}

#[test]
fn pdf_urls_point_at_the_paper() {
    assert_eq!(pdf_url_for("1234.5678"), "https://arxiv.org/pdf/1234.5678.pdf");
}

#[test]
fn extracted_text_gets_page_markers() {
    let text = "Page one line.\n\x0C  Second page.  \n";
    let formatted = format_extracted_text(text).unwrap();
    assert_eq!(
        formatted,
        "\n=== Page 1 ===\n\nPage one line.\n\n=== Page 2 ===\n\nSecond page.\n"
    );
    assert!(formatted.contains("=== Page 1 ==="));
}

#[test]
fn blank_pdf_text_is_rejected() {
    match format_extracted_text(" \n \x0C \n ") {
        Err(AgentError::PdfProcessing(m)) => assert_eq!(m, "No text content found in PDF"),
        other => panic!("unexpected result: {:?}", other),
    }
}

#[test]
fn first_usable_credential_wins() {
    assert!(credentials_present(&Some("sk-a".to_string()), &None));
    assert!(credentials_present(&None, &Some("sk-b".to_string())));
    assert!(credentials_present(&Some("sk-a".to_string()), &Some("sk-b".to_string())));
    assert!(!credentials_present(&None, &None));
    assert!(!credentials_present(&Some(String::new()), &None));
    assert!(!credentials_present(&Some(String::new()), &Some(String::new())));
}

#[test]
fn file_ops_mode_is_what_it_was_built_with() {
    assert!(!FileOps::production().is_test_mode());
    assert!(FileOps::testing().is_test_mode());
    assert!(FileOps::new(true).is_test_mode());
    assert!(!FileOps::new(false).is_test_mode());
}

#[test]
fn init_manager_joins_paths_under_its_root() {
    let init = InitManager::new("work");
    assert_eq!(init.get_path("output"), "work/output");
    assert_eq!(init.get_path("research_dir/src"), "work/research_dir/src");
}

#[test]
fn paper_agent_config_builders_set_their_fields() {
    let cfg = PaperAgentConfig::new(base_config());
    assert!(matches!(cfg.analysis_depth, AnalysisDepth::Normal));
    assert!(cfg.extract_code);
    assert!(cfg.extract_math);
    let cfg = cfg.with_depth(AnalysisDepth::Deep).with_extract_code(false).with_extract_math(
        false,
    );
    assert!(matches!(cfg.analysis_depth, AnalysisDepth::Deep));
    assert!(!cfg.extract_code);
    assert!(!cfg.extract_math);
}

#[test]
fn research_agent_config_builders_set_their_fields() {
    let cfg = ResearchAgentConfig::new(base_config());
    assert!(matches!(cfg.research_style, ResearchStyle::Hybrid));
    assert_eq!(cfg.max_papers, 10);
    assert_eq!(cfg.min_citation_count, 5);
    let cfg = cfg.with_style(ResearchStyle::Deep).with_max_papers(5).with_min_citations(2);
    assert!(matches!(cfg.research_style, ResearchStyle::Deep));
    assert_eq!(cfg.max_papers, 5);
    assert_eq!(cfg.min_citation_count, 2);
}

#[test]
fn prompts_and_plans_follow_the_configuration() {
    assert_eq!(
        analysis_prompt(AnalysisDepth::Quick),
        "Provide a brief summary of this paper section."
    );
    assert!(analysis_prompt(AnalysisDepth::Deep).contains("comprehensive"));
    assert!(experiment_plan(ResearchStyle::Broad).starts_with("1. Survey of multiple approaches"));
    assert!(experiment_plan(ResearchStyle::Hybrid).contains("Deep dive"));
    assert!(experiment_plan(ResearchStyle::Deep).contains("In-depth analysis"));
}

#[test]
fn only_the_wired_commands_are_implemented() {
    assert!(CommandType::AddPaper.is_implemented());
    assert!(CommandType::AddSystemNote.is_implemented());
    assert!(CommandType::AddUserNote.is_implemented());
    assert!(CommandType::SaveState.is_implemented());
    assert!(!CommandType::AnalyzePaper.is_implemented());
    assert!(!CommandType::RunExperiment.is_implemented());
    assert!(!CommandType::LoadState.is_implemented());
}
