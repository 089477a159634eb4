//! Research-agent configuration and the pure pieces of its workflow.

use vstd::prelude::*;
use crate::agents::AgentConfig;

verus! {

/// How a research agent balances breadth against depth.
#[derive(Debug, Clone, Copy, PartialEq, Eq, Structural)]
pub enum ResearchStyle {
    Broad,
    Deep,
    Hybrid,
}

/// Configuration specific to research agents.
#[derive(Debug, Clone)]
pub struct ResearchAgentConfig {
    pub base: AgentConfig,
    pub research_style: ResearchStyle,
    pub max_papers: usize,
    pub min_citation_count: usize,
}

impl ResearchAgentConfig {
    /// The default research-agent configuration over a base
    /// configuration: hybrid style, at most ten papers, at least five
    /// citations.
    pub fn new(base: AgentConfig) -> (r: ResearchAgentConfig)
        ensures
            r.base == base,
            r.research_style == ResearchStyle::Hybrid,
            r.max_papers == 10,
            r.min_citation_count == 5,
    {
        ResearchAgentConfig {
            base,
            research_style: ResearchStyle::Hybrid,
            max_papers: 10,
            min_citation_count: 5,
        }
    }

    /// The configuration with the research style replaced.
    pub fn with_style(self, style: ResearchStyle) -> (r: ResearchAgentConfig)
        ensures
            r == (ResearchAgentConfig { research_style: style, ..self }),
    {
        ResearchAgentConfig { research_style: style, ..self }
    }

    /// The configuration with the paper budget replaced.
    pub fn with_max_papers(self, max_papers: usize) -> (r: ResearchAgentConfig)
        ensures
            r == (ResearchAgentConfig { max_papers, ..self }),
    {
        ResearchAgentConfig { max_papers, ..self }
    }

    /// The configuration with the citation threshold replaced.
    pub fn with_min_citations(self, min_citations: usize) -> (r: ResearchAgentConfig)
        ensures
            r == (ResearchAgentConfig { min_citation_count: min_citations, ..self }),
    {
        ResearchAgentConfig { min_citation_count: min_citations, ..self }
    }
}

/// The experiment plan a research agent announces, by style.
pub fn experiment_plan(style: ResearchStyle) -> (r: String)
    ensures
        style is Deep ==> r@
            == "1. In-depth analysis of key papers\n2. Implementation of core methods\n3. Comparative evaluation\n"@,
        style is Broad ==> r@
            == "1. Survey of multiple approaches\n2. Meta-analysis of results\n3. Synthesis of findings\n"@,
        style is Hybrid ==> r@
            == "1. Initial broad survey\n2. Deep dive into promising approaches\n3. Selective implementation and evaluation\n"@,
{
    match style {
        ResearchStyle::Deep => "1. In-depth analysis of key papers\n2. Implementation of core methods\n3. Comparative evaluation\n".to_owned(),
        ResearchStyle::Broad => "1. Survey of multiple approaches\n2. Meta-analysis of results\n3. Synthesis of findings\n".to_owned(),
        ResearchStyle::Hybrid => "1. Initial broad survey\n2. Deep dive into promising approaches\n3. Selective implementation and evaluation\n".to_owned(),
    }
}

} // verus!
