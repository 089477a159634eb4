//! Heuristic segmentation of paper content: sections, code snippets and
//! mathematical formulas. All of it is pure, line-based text processing;
//! each extractor's result is pinned down by a fold over the lines of
//! the input.

use vstd::prelude::*;
use vstd::string::StrSliceExecFns;
use vstd::string::StringExecFns;
use crate::agents::AgentConfig;
use crate::utils::strings::contains_lower;
use crate::utils::strings::contains_str;
use crate::utils::strings::spec_contains_seq;
use crate::utils::strings::spec_lines;
use crate::utils::strings::spec_lower;
use crate::utils::strings::spec_seq_contains_str;
use crate::utils::strings::spec_starts_with;
use crate::utils::strings::spec_trim;
use crate::utils::strings::split_lines;
use crate::utils::strings::starts_with_str;
use crate::utils::strings::trim_of;
use crate::utils::strings::vec_contains_str;
use crate::utils::strings::views_of;

verus! {

/// How deeply a paper agent analyses each section.
#[derive(Debug, Clone, Copy, PartialEq, Eq, Structural)]
pub enum AnalysisDepth {
    Quick,
    Normal,
    Deep,
}

/// Configuration specific to paper agents.
#[derive(Debug, Clone)]
pub struct PaperAgentConfig {
    pub base: AgentConfig,
    pub analysis_depth: AnalysisDepth,
    pub extract_code: bool,
    pub extract_math: bool,
}

impl PaperAgentConfig {
    /// The default paper-agent configuration over a base configuration:
    /// normal depth, with code and math extraction enabled.
    pub fn new(base: AgentConfig) -> (r: PaperAgentConfig)
        ensures
            r.base == base,
            r.analysis_depth == AnalysisDepth::Normal,
            r.extract_code,
            r.extract_math,
    {
        PaperAgentConfig {
            base,
            analysis_depth: AnalysisDepth::Normal,
            extract_code: true,
            extract_math: true,
        }
    }

    /// The configuration with the analysis depth replaced.
    pub fn with_depth(self, depth: AnalysisDepth) -> (r: PaperAgentConfig)
        ensures
            r == (PaperAgentConfig { analysis_depth: depth, ..self }),
    {
        PaperAgentConfig { analysis_depth: depth, ..self }
    }

    /// The configuration with code extraction switched on or off.
    pub fn with_extract_code(self, enable: bool) -> (r: PaperAgentConfig)
        ensures
            r == (PaperAgentConfig { extract_code: enable, ..self }),
    {
        PaperAgentConfig { extract_code: enable, ..self }
    }

    /// The configuration with math extraction switched on or off.
    pub fn with_extract_math(self, enable: bool) -> (r: PaperAgentConfig)
        ensures
            r == (PaperAgentConfig { extract_math: enable, ..self }),
    {
        PaperAgentConfig { extract_math: enable, ..self }
    }
}

/// The system prompt used to analyse one section, by analysis depth.
pub fn analysis_prompt(depth: AnalysisDepth) -> (r: String)
    ensures
        depth is Quick ==> r@ == "Provide a brief summary of this paper section."@,
        depth is Normal ==> r@
            == "Analyze this paper section, highlighting key points and methodology."@,
        depth is Deep ==> r@
            == "Provide a comprehensive analysis of this section, including methodology, results, and implications."@,
{
    match depth {
        AnalysisDepth::Quick => "Provide a brief summary of this paper section.".to_owned(),
        AnalysisDepth::Normal => "Analyze this paper section, highlighting key points and methodology.".to_owned(),
        AnalysisDepth::Deep => "Provide a comprehensive analysis of this section, including methodology, results, and implications.".to_owned(),
    }
}

/// Whether a trimmed line reads as a section header: it mentions one of
/// the usual section names (case-insensitively) and is not much longer
/// than that name — up to five extra characters of numbering or
/// formatting are allowed.
pub open spec fn spec_is_section_header(lt: Seq<char>) -> bool {
    ||| (spec_contains_seq(spec_lower(lt), "abstract"@) && lt.len() <= 8 + 5)
    ||| (spec_contains_seq(spec_lower(lt), "introduction"@) && lt.len() <= 12 + 5)
    ||| (spec_contains_seq(spec_lower(lt), "background"@) && lt.len() <= 10 + 5)
    ||| (spec_contains_seq(spec_lower(lt), "related work"@) && lt.len() <= 12 + 5)
    ||| (spec_contains_seq(spec_lower(lt), "methods"@) && lt.len() <= 7 + 5)
    ||| (spec_contains_seq(spec_lower(lt), "methodology"@) && lt.len() <= 11 + 5)
    ||| (spec_contains_seq(spec_lower(lt), "implementation"@) && lt.len() <= 14 + 5)
    ||| (spec_contains_seq(spec_lower(lt), "approach"@) && lt.len() <= 8 + 5)
    ||| (spec_contains_seq(spec_lower(lt), "results"@) && lt.len() <= 7 + 5)
    ||| (spec_contains_seq(spec_lower(lt), "evaluation"@) && lt.len() <= 10 + 5)
    ||| (spec_contains_seq(spec_lower(lt), "discussion"@) && lt.len() <= 10 + 5)
    ||| (spec_contains_seq(spec_lower(lt), "conclusion"@) && lt.len() <= 10 + 5)
    ||| (spec_contains_seq(spec_lower(lt), "future work"@) && lt.len() <= 11 + 5)
    ||| (spec_contains_seq(spec_lower(lt), "references"@) && lt.len() <= 10 + 5)
}

fn is_section_header(lt: &str) -> (r: bool)
    ensures
        r == spec_is_section_header(lt@),
{
    let n = lt.unicode_len();
    (contains_lower(lt, "abstract") && n <= 8 + 5) || (contains_lower(lt, "introduction") && n
        <= 12 + 5) || (contains_lower(lt, "background") && n <= 10 + 5) || (contains_lower(
        lt,
        "related work",
    ) && n <= 12 + 5) || (contains_lower(lt, "methods") && n <= 7 + 5) || (contains_lower(
        lt,
        "methodology",
    ) && n <= 11 + 5) || (contains_lower(lt, "implementation") && n <= 14 + 5) || (contains_lower(
        lt,
        "approach",
    ) && n <= 8 + 5) || (contains_lower(lt, "results") && n <= 7 + 5) || (contains_lower(
        lt,
        "evaluation",
    ) && n <= 10 + 5) || (contains_lower(lt, "discussion") && n <= 10 + 5) || (contains_lower(
        lt,
        "conclusion",
    ) && n <= 10 + 5) || (contains_lower(lt, "future work") && n <= 11 + 5) || (contains_lower(
        lt,
        "references",
    ) && n <= 10 + 5)
}

/// The state of the section scan: sections emitted so far, the header of
/// the section being collected, and its body.
pub struct SectionScan {
    pub sections: Seq<Seq<char>>,
    pub header: Seq<char>,
    pub body: Seq<char>,
}

/// Emit the section being collected, if it has any body.
pub open spec fn spec_section_flush(st: SectionScan) -> Seq<Seq<char>> {
    if st.body.len() > 0 {
        st.sections.push("=== "@ + st.header + " ===\n"@ + spec_trim(st.body))
    } else {
        st.sections
    }
}

/// One line of the section scan: a header line closes the section being
/// collected and opens a new one; a non-empty line extends the body; a
/// blank line is dropped.
pub open spec fn spec_section_step(st: SectionScan, line: Seq<char>) -> SectionScan {
    let lt = spec_trim(line);
    if spec_is_section_header(lt) {
        SectionScan { sections: spec_section_flush(st), header: lt, body: Seq::empty() }
    } else if lt.len() > 0 {
        SectionScan { body: st.body + line + "\n"@, ..st }
    } else {
        st
    }
}

/// The section scan over a sequence of lines.
pub open spec fn spec_section_fold(lines: Seq<Seq<char>>, st: SectionScan) -> SectionScan
    decreases lines.len(),
{
    if lines.len() == 0 {
        st
    } else {
        spec_section_fold(lines.drop_first(), spec_section_step(st, lines[0]))
    }
}

proof fn lemma_section_fold_push(lines: Seq<Seq<char>>, st: SectionScan, line: Seq<char>)
    ensures
        spec_section_fold(lines.push(line), st) == spec_section_step(
            spec_section_fold(lines, st),
            line,
        ),
    decreases lines.len(),
{
    if lines.len() == 0 {
        assert(lines.push(line)[0] == line);
        assert(lines.push(line).drop_first() =~= Seq::<Seq<char>>::empty());
        assert(spec_section_fold(lines, st) == st);
        assert(spec_section_fold(Seq::<Seq<char>>::empty(), spec_section_step(st, line))
            == spec_section_step(st, line));
    } else {
        assert(lines.push(line)[0] == lines[0]);
        assert(lines.push(line).drop_first() =~= lines.drop_first().push(line));
        lemma_section_fold_push(lines.drop_first(), spec_section_step(st, lines[0]), line);
    }
}

/// What `extract_sections` returns: the sections the scan finds, or the
/// whole trimmed content as one section when none is found.
pub open spec fn spec_extract_sections(content: Seq<char>) -> Seq<Seq<char>> {
    let st0 = SectionScan { sections: Seq::empty(), header: Seq::empty(), body: Seq::empty() };
    let secs = spec_section_flush(spec_section_fold(spec_lines(content), st0));
    if secs.len() == 0 {
        seq!["=== Full Content ===\n"@ + spec_trim(content)]
    } else {
        secs
    }
}

/// Split paper content into sections along the usual header names. Each
/// returned section carries its header and trimmed body; content without
/// a single recognised header comes back whole, as one section.
pub fn extract_sections(content: &str) -> (r: Vec<String>)
    ensures
        views_of(r@) == spec_extract_sections(content@),
        r@.len() >= 1,
{
    let lines = split_lines(content);
    let ghost lvs = spec_lines(content@);
    let ghost st0 = SectionScan {
        sections: Seq::empty(),
        header: Seq::empty(),
        body: Seq::empty(),
    };
    let mut sections: Vec<String> = Vec::new();
    let mut header = String::new();
    let mut body = String::new();
    let mut i: usize = 0;
    proof {
        assert(lvs.take(0) =~= Seq::<Seq<char>>::empty());
        assert(views_of(sections@) =~= Seq::<Seq<char>>::empty());
    }
    while i < lines.len()
        invariant
            i <= lines@.len(),
            views_of(lines@) == lvs,
            ({
                let st = spec_section_fold(lvs.take(i as int), st0);
                views_of(sections@) == st.sections && header@ == st.header && body@ == st.body
            }),
        decreases lines@.len() - i,
    {
        proof {
            assert(views_of(lines@)[i as int] == lines@[i as int]@);
            assert(lvs.take(i as int + 1) =~= lvs.take(i as int).push(lvs[i as int]));
            lemma_section_fold_push(lvs.take(i as int), st0, lvs[i as int]);
        }
        let lt = trim_of(lines[i].as_str());
        if is_section_header(lt.as_str()) {
            if !body.as_str().is_empty() {
                let ghost s0 = sections@;
                let sec = "=== ".to_owned().concat(header.as_str()).concat(" ===\n").concat(
                    trim_of(body.as_str()).as_str(),
                );
                sections.push(sec);
                proof {
                    assert(views_of(s0.push(sec)) =~= views_of(s0).push(sec@));
                }
            }
            header = lt;
            body = String::new();
        } else if !lt.as_str().is_empty() {
            body.append(lines[i].as_str());
            body.append("\n");
        }
        i = i + 1;
    }
    proof {
        assert(lvs.take(lvs.len() as int) =~= lvs);
    }
    if !body.as_str().is_empty() {
        let ghost s0 = sections@;
        let sec = "=== ".to_owned().concat(header.as_str()).concat(" ===\n").concat(
            trim_of(body.as_str()).as_str(),
        );
        sections.push(sec);
        proof {
            assert(views_of(s0.push(sec)) =~= views_of(s0).push(sec@));
        }
    }
    if sections.len() == 0 {
        let ghost s0 = sections@;
        let sec = "=== Full Content ===\n".to_owned().concat(trim_of(content).as_str());
        sections.push(sec);
        proof {
            assert(views_of(s0.push(sec)) =~= views_of(s0).push(sec@));
            assert(views_of(sections@) =~= seq![sec@]);
        }
    }
    sections
}

/// Whether a trimmed line opens or closes a fenced code block.
pub open spec fn spec_code_fence(lt: Seq<char>) -> bool {
    spec_starts_with(lt, "```"@) || spec_starts_with(lt, "~~~"@)
}

/// Whether a raw line is indented like a code block.
pub open spec fn spec_indented_line(line: Seq<char>) -> bool {
    spec_starts_with(line, "    "@) || spec_starts_with(line, "\t"@)
}

/// Whether a trimmed line starts like an inline code statement.
pub open spec fn spec_inline_code_line(lt: Seq<char>) -> bool {
    ||| spec_starts_with(lt, "def "@)
    ||| spec_starts_with(lt, "class "@)
    ||| spec_starts_with(lt, "fn "@)
    ||| spec_starts_with(lt, "import "@)
    ||| spec_starts_with(lt, "from "@)
    ||| spec_starts_with(lt, "use "@)
    ||| spec_starts_with(lt, "public class"@)
    ||| spec_starts_with(lt, "public static"@)
    ||| spec_starts_with(lt, "function "@)
    ||| spec_starts_with(lt, "var "@)
    ||| spec_starts_with(lt, "let "@)
    ||| spec_starts_with(lt, "#include"@)
    ||| spec_starts_with(lt, "int "@)
    ||| spec_starts_with(lt, "void "@)
    ||| spec_starts_with(lt, "struct "@)
    ||| spec_starts_with(lt, "impl "@)
}

fn is_inline_code_line(lt: &str) -> (r: bool)
    ensures
        r == spec_inline_code_line(lt@),
{
    starts_with_str(lt, "def ") || starts_with_str(lt, "class ") || starts_with_str(lt, "fn ")
        || starts_with_str(lt, "import ") || starts_with_str(lt, "from ") || starts_with_str(
        lt,
        "use ",
    ) || starts_with_str(lt, "public class") || starts_with_str(lt, "public static")
        || starts_with_str(lt, "function ") || starts_with_str(lt, "var ") || starts_with_str(
        lt,
        "let ",
    ) || starts_with_str(lt, "#include") || starts_with_str(lt, "int ") || starts_with_str(
        lt,
        "void ",
    ) || starts_with_str(lt, "struct ") || starts_with_str(lt, "impl ")
}

/// The state of the code-block scan: snippets emitted so far, whether a
/// fenced block is open, and the text collected for the current snippet.
pub struct CodeScan {
    pub snippets: Seq<Seq<char>>,
    pub in_block: bool,
    pub cur: Seq<char>,
}

/// One line of the code-block scan: a fence toggles block mode (closing
/// a block emits its trimmed text, if any); inside a block, or on an
/// indented line, the raw line extends the current snippet.
pub open spec fn spec_code_step(st: CodeScan, line: Seq<char>) -> CodeScan {
    let lt = spec_trim(line);
    if spec_code_fence(lt) {
        CodeScan {
            snippets: if st.in_block && spec_trim(st.cur).len() > 0 {
                st.snippets.push(spec_trim(st.cur))
            } else {
                st.snippets
            },
            cur: if st.in_block {
                Seq::empty()
            } else {
                st.cur
            },
            in_block: !st.in_block,
        }
    } else if st.in_block || spec_indented_line(line) {
        CodeScan { cur: st.cur + line + "\n"@, ..st }
    } else {
        st
    }
}

/// The code-block scan over a sequence of lines.
pub open spec fn spec_code_fold(lines: Seq<Seq<char>>, st: CodeScan) -> CodeScan
    decreases lines.len(),
{
    if lines.len() == 0 {
        st
    } else {
        spec_code_fold(lines.drop_first(), spec_code_step(st, lines[0]))
    }
}

proof fn lemma_code_fold_push(lines: Seq<Seq<char>>, st: CodeScan, line: Seq<char>)
    ensures
        spec_code_fold(lines.push(line), st) == spec_code_step(spec_code_fold(lines, st), line),
    decreases lines.len(),
{
    if lines.len() == 0 {
        assert(lines.push(line)[0] == line);
        assert(lines.push(line).drop_first() =~= Seq::<Seq<char>>::empty());
        assert(spec_code_fold(lines, st) == st);
        assert(spec_code_fold(Seq::<Seq<char>>::empty(), spec_code_step(st, line))
            == spec_code_step(st, line));
    } else {
        assert(lines.push(line)[0] == lines[0]);
        assert(lines.push(line).drop_first() =~= lines.drop_first().push(line));
        lemma_code_fold_push(lines.drop_first(), spec_code_step(st, lines[0]), line);
    }
}

/// The snippets of the block scan, with any unterminated trailing
/// snippet emitted too.
pub open spec fn spec_code_blocks(lines: Seq<Seq<char>>) -> Seq<Seq<char>> {
    let st0 = CodeScan { snippets: Seq::empty(), in_block: false, cur: Seq::empty() };
    let st = spec_code_fold(lines, st0);
    if spec_trim(st.cur).len() > 0 {
        st.snippets.push(spec_trim(st.cur))
    } else {
        st.snippets
    }
}

/// One line of the inline-code pass: a trimmed line that starts like a
/// code statement is added, unless an equal snippet is already present.
pub open spec fn spec_inline_code_step(snips: Seq<Seq<char>>, line: Seq<char>) -> Seq<Seq<char>> {
    let lt = spec_trim(line);
    if spec_inline_code_line(lt) && !spec_seq_contains_str(snips, lt) {
        snips.push(lt)
    } else {
        snips
    }
}

/// The inline-code pass over a sequence of lines.
pub open spec fn spec_inline_code_fold(lines: Seq<Seq<char>>, snips: Seq<Seq<char>>) -> Seq<
    Seq<char>,
>
    decreases lines.len(),
{
    if lines.len() == 0 {
        snips
    } else {
        spec_inline_code_fold(lines.drop_first(), spec_inline_code_step(snips, lines[0]))
    }
}

proof fn lemma_inline_code_fold_push(
    lines: Seq<Seq<char>>,
    snips: Seq<Seq<char>>,
    line: Seq<char>,
)
    ensures
        spec_inline_code_fold(lines.push(line), snips) == spec_inline_code_step(
            spec_inline_code_fold(lines, snips),
            line,
        ),
    decreases lines.len(),
{
    if lines.len() == 0 {
        assert(lines.push(line)[0] == line);
        assert(lines.push(line).drop_first() =~= Seq::<Seq<char>>::empty());
        assert(spec_inline_code_fold(lines, snips) == snips);
        assert(spec_inline_code_fold(
            Seq::<Seq<char>>::empty(),
            spec_inline_code_step(snips, line),
        ) == spec_inline_code_step(snips, line));
    } else {
        assert(lines.push(line)[0] == lines[0]);
        assert(lines.push(line).drop_first() =~= lines.drop_first().push(line));
        lemma_inline_code_fold_push(
            lines.drop_first(),
            spec_inline_code_step(snips, lines[0]),
            line,
        );
    }
}

/// What `extract_code_snippets` returns: nothing when extraction is off;
/// otherwise the fenced and indented blocks, followed by the inline code
/// statements not already collected.
pub open spec fn spec_extract_code_snippets(content: Seq<char>, enabled: bool) -> Seq<Seq<char>> {
    if !enabled {
        Seq::empty()
    } else {
        let lines = spec_lines(content);
        spec_inline_code_fold(lines, spec_code_blocks(lines))
    }
}

/// Collect the code snippets of paper content: fenced blocks, runs of
/// indented lines, and single lines that start like code statements.
/// When `enabled` is false (code extraction switched off in the agent's
/// configuration) nothing is collected.
pub fn extract_code_snippets(content: &str, enabled: bool) -> (r: Vec<String>)
    ensures
        views_of(r@) == spec_extract_code_snippets(content@, enabled),
{
    if !enabled {
        let r: Vec<String> = Vec::new();
        proof {
            assert(views_of(r@) =~= Seq::<Seq<char>>::empty());
        }
        return r;
    }
    let lines = split_lines(content);
    let ghost lvs = spec_lines(content@);
    let ghost st0 = CodeScan { snippets: Seq::empty(), in_block: false, cur: Seq::empty() };
    let mut snippets: Vec<String> = Vec::new();
    let mut in_block = false;
    let mut cur = String::new();
    let mut i: usize = 0;
    proof {
        assert(lvs.take(0) =~= Seq::<Seq<char>>::empty());
        assert(views_of(snippets@) =~= Seq::<Seq<char>>::empty());
    }
    while i < lines.len()
        invariant
            i <= lines@.len(),
            views_of(lines@) == lvs,
            ({
                let st = spec_code_fold(lvs.take(i as int), st0);
                views_of(snippets@) == st.snippets && in_block == st.in_block && cur@ == st.cur
            }),
        decreases lines@.len() - i,
    {
        proof {
            assert(views_of(lines@)[i as int] == lines@[i as int]@);
            assert(lvs.take(i as int + 1) =~= lvs.take(i as int).push(lvs[i as int]));
            lemma_code_fold_push(lvs.take(i as int), st0, lvs[i as int]);
        }
        let lt = trim_of(lines[i].as_str());
        if starts_with_str(lt.as_str(), "```") || starts_with_str(lt.as_str(), "~~~") {
            if in_block {
                let t = trim_of(cur.as_str());
                if !t.as_str().is_empty() {
                    let ghost s0 = snippets@;
                    snippets.push(t);
                    proof {
                        assert(views_of(s0.push(snippets@[s0.len() as int])) =~= views_of(
                            s0,
                        ).push(snippets@[s0.len() as int]@));
                    }
                }
                cur = String::new();
            }
            in_block = !in_block;
        } else if in_block || starts_with_str(lines[i].as_str(), "    ") || starts_with_str(
            lines[i].as_str(),
            "\t",
        ) {
            cur.append(lines[i].as_str());
            cur.append("\n");
        }
        i = i + 1;
    }
    proof {
        assert(lvs.take(lvs.len() as int) =~= lvs);
    }
    let t = trim_of(cur.as_str());
    if !t.as_str().is_empty() {
        let ghost s0 = snippets@;
        snippets.push(t);
        proof {
            assert(views_of(s0.push(snippets@[s0.len() as int])) =~= views_of(s0).push(
                snippets@[s0.len() as int]@,
            ));
        }
    }
    let mut k: usize = 0;
    let ghost base = views_of(snippets@);
    proof {
        assert(lvs.take(0) =~= Seq::<Seq<char>>::empty());
    }
    while k < lines.len()
        invariant
            k <= lines@.len(),
            views_of(lines@) == lvs,
            views_of(snippets@) == spec_inline_code_fold(lvs.take(k as int), base),
        decreases lines@.len() - k,
    {
        proof {
            assert(views_of(lines@)[k as int] == lines@[k as int]@);
            assert(lvs.take(k as int + 1) =~= lvs.take(k as int).push(lvs[k as int]));
            lemma_inline_code_fold_push(lvs.take(k as int), base, lvs[k as int]);
        }
        let lt = trim_of(lines[k].as_str());
        if is_inline_code_line(lt.as_str()) && !vec_contains_str(&snippets, lt.as_str()) {
            let ghost s0 = snippets@;
            snippets.push(lt);
            proof {
                assert(views_of(s0.push(snippets@[s0.len() as int])) =~= views_of(s0).push(
                    snippets@[s0.len() as int]@,
                ));
            }
        }
        k = k + 1;
    }
    proof {
        assert(lvs.take(lvs.len() as int) =~= lvs);
    }
    snippets
}

/// The state of the inline-math scan over one line: the formula text
/// collected so far and whether the scan is between dollar delimiters.
pub struct InlineMathScan {
    pub formula: Seq<char>,
    pub in_math: bool,
}

/// One character of the inline-math scan: a dollar sign that is not the
/// line's last character toggles math mode; inside math mode characters
/// accumulate into the formula.
pub open spec fn spec_inline_math_step(st: InlineMathScan, lt: Seq<char>, i: int) -> InlineMathScan {
    if i < lt.len() - 1 && lt[i] == '$' {
        InlineMathScan { in_math: !st.in_math, ..st }
    } else if st.in_math {
        InlineMathScan { formula: st.formula.push(lt[i]), ..st }
    } else {
        st
    }
}

/// The inline-math scan after the first `i` characters.
pub open spec fn spec_inline_math_upto(lt: Seq<char>, i: int) -> InlineMathScan
    decreases i,
{
    if i <= 0 {
        InlineMathScan { formula: Seq::empty(), in_math: false }
    } else {
        spec_inline_math_step(spec_inline_math_upto(lt, i - 1), lt, i - 1)
    }
}

/// The inline formula a line yields.
pub open spec fn spec_inline_math(lt: Seq<char>) -> Seq<char> {
    spec_inline_math_upto(lt, lt.len() as int).formula
}

fn inline_math_of(lt: &str) -> (r: String)
    ensures
        r@ == spec_inline_math(lt@),
{
    let m = lt.unicode_len();
    let mut f = String::new();
    let mut in_math = false;
    let mut i: usize = 0;
    while i < m
        invariant
            i <= m,
            m == lt@.len(),
            f@ == spec_inline_math_upto(lt@, i as int).formula,
            in_math == spec_inline_math_upto(lt@, i as int).in_math,
        decreases m - i,
    {
        let c = lt.get_char(i);
        if i + 1 < m && c == '$' {
            in_math = !in_math;
        } else if in_math {
            f.push(c);
        }
        i = i + 1;
    }
    f
}

/// Whether a trimmed line looks mathematical: it contains an operator or
/// one of the usual TeX commands.
pub open spec fn spec_math_pattern_line(lt: Seq<char>) -> bool {
    ||| spec_contains_seq(lt, "="@)
    ||| spec_contains_seq(lt, "+"@)
    ||| spec_contains_seq(lt, "-"@)
    ||| spec_contains_seq(lt, "*"@)
    ||| spec_contains_seq(lt, "/"@)
    ||| spec_contains_seq(lt, "^"@)
    ||| spec_contains_seq(lt, "\\sum"@)
    ||| spec_contains_seq(lt, "\\prod"@)
    ||| spec_contains_seq(lt, "\\int"@)
    ||| spec_contains_seq(lt, "\\lim"@)
    ||| spec_contains_seq(lt, "\\inf"@)
    ||| spec_contains_seq(lt, "\\sup"@)
    ||| spec_contains_seq(lt, "\\max"@)
    ||| spec_contains_seq(lt, "\\min"@)
    ||| spec_contains_seq(lt, "\\frac"@)
    ||| spec_contains_seq(lt, "\\sqrt"@)
    ||| spec_contains_seq(lt, "\\alpha"@)
    ||| spec_contains_seq(lt, "\\beta"@)
    ||| spec_contains_seq(lt, "\\gamma"@)
    ||| spec_contains_seq(lt, "\\theta"@)
}

fn is_math_pattern_line(lt: &str) -> (r: bool)
    ensures
        r == spec_math_pattern_line(lt@),
{
    contains_str(lt, "=") || contains_str(lt, "+") || contains_str(lt, "-") || contains_str(
        lt,
        "*",
    ) || contains_str(lt, "/") || contains_str(lt, "^") || contains_str(lt, "\\sum")
        || contains_str(lt, "\\prod") || contains_str(lt, "\\int") || contains_str(lt, "\\lim")
        || contains_str(lt, "\\inf") || contains_str(lt, "\\sup") || contains_str(lt, "\\max")
        || contains_str(lt, "\\min") || contains_str(lt, "\\frac") || contains_str(lt, "\\sqrt")
        || contains_str(lt, "\\alpha") || contains_str(lt, "\\beta") || contains_str(lt, "\\gamma")
        || contains_str(lt, "\\theta")
}

/// The state of the equation scan: formulas collected so far, whether an
/// equation environment is open, and its collected text.
pub struct MathScan {
    pub formulas: Seq<Seq<char>>,
    pub in_eq: bool,
    pub cur: Seq<char>,
}

/// One line of the equation scan: an opening TeX delimiter enters
/// equation mode and a closing one leaves it, emitting the collected
/// formula (if any); outside equation mode the line's inline math is
/// emitted; inside, the trimmed line extends the collected formula.
pub open spec fn spec_math_step(st: MathScan, line: Seq<char>) -> MathScan {
    let lt = spec_trim(line);
    if spec_contains_seq(lt, "\\begin{equation}"@) || spec_contains_seq(lt, "\\["@) {
        MathScan { in_eq: true, ..st }
    } else if spec_contains_seq(lt, "\\end{equation}"@) || spec_contains_seq(lt, "\\]"@) {
        if spec_trim(st.cur).len() > 0 {
            MathScan {
                formulas: st.formulas.push(spec_trim(st.cur)),
                in_eq: false,
                cur: Seq::empty(),
            }
        } else {
            MathScan { in_eq: false, ..st }
        }
    } else if !st.in_eq {
        if spec_inline_math(lt).len() > 0 {
            MathScan { formulas: st.formulas.push(spec_inline_math(lt)), ..st }
        } else {
            st
        }
    } else {
        MathScan { cur: st.cur + lt + "\n"@, ..st }
    }
}

/// The equation scan over a sequence of lines.
pub open spec fn spec_math_fold(lines: Seq<Seq<char>>, st: MathScan) -> MathScan
    decreases lines.len(),
{
    if lines.len() == 0 {
        st
    } else {
        spec_math_fold(lines.drop_first(), spec_math_step(st, lines[0]))
    }
}

proof fn lemma_math_fold_push(lines: Seq<Seq<char>>, st: MathScan, line: Seq<char>)
    ensures
        spec_math_fold(lines.push(line), st) == spec_math_step(spec_math_fold(lines, st), line),
    decreases lines.len(),
{
    if lines.len() == 0 {
        assert(lines.push(line)[0] == line);
        assert(lines.push(line).drop_first() =~= Seq::<Seq<char>>::empty());
        assert(spec_math_fold(lines, st) == st);
        assert(spec_math_fold(Seq::<Seq<char>>::empty(), spec_math_step(st, line))
            == spec_math_step(st, line));
    } else {
        assert(lines.push(line)[0] == lines[0]);
        assert(lines.push(line).drop_first() =~= lines.drop_first().push(line));
        lemma_math_fold_push(lines.drop_first(), spec_math_step(st, lines[0]), line);
    }
}

/// One line of the pattern pass: a trimmed line that looks mathematical
/// is added, unless an equal formula is already present.
pub open spec fn spec_math_pat_step(fs: Seq<Seq<char>>, line: Seq<char>) -> Seq<Seq<char>> {
    let lt = spec_trim(line);
    if spec_math_pattern_line(lt) && !spec_seq_contains_str(fs, lt) {
        fs.push(lt)
    } else {
        fs
    }
}

/// The pattern pass over a sequence of lines.
pub open spec fn spec_math_pat_fold(lines: Seq<Seq<char>>, fs: Seq<Seq<char>>) -> Seq<Seq<char>>
    decreases lines.len(),
{
    if lines.len() == 0 {
        fs
    } else {
        spec_math_pat_fold(lines.drop_first(), spec_math_pat_step(fs, lines[0]))
    }
}

proof fn lemma_math_pat_fold_push(lines: Seq<Seq<char>>, fs: Seq<Seq<char>>, line: Seq<char>)
    ensures
        spec_math_pat_fold(lines.push(line), fs) == spec_math_pat_step(
            spec_math_pat_fold(lines, fs),
            line,
        ),
    decreases lines.len(),
{
    if lines.len() == 0 {
        assert(lines.push(line)[0] == line);
        assert(lines.push(line).drop_first() =~= Seq::<Seq<char>>::empty());
        assert(spec_math_pat_fold(lines, fs) == fs);
        assert(spec_math_pat_fold(Seq::<Seq<char>>::empty(), spec_math_pat_step(fs, line))
            == spec_math_pat_step(fs, line));
    } else {
        assert(lines.push(line)[0] == lines[0]);
        assert(lines.push(line).drop_first() =~= lines.drop_first().push(line));
        lemma_math_pat_fold_push(lines.drop_first(), spec_math_pat_step(fs, lines[0]), line);
    }
}

/// What `extract_math_formulas` returns: nothing when extraction is off;
/// otherwise the equation-environment and inline formulas, followed by
/// the mathematical-looking lines not already collected. (A trailing
/// unclosed equation environment is dropped, as the scan never sees its
/// closing delimiter.)
pub open spec fn spec_extract_math_formulas(content: Seq<char>, enabled: bool) -> Seq<Seq<char>> {
    if !enabled {
        Seq::empty()
    } else {
        let lines = spec_lines(content);
        let st0 = MathScan { formulas: Seq::empty(), in_eq: false, cur: Seq::empty() };
        spec_math_pat_fold(lines, spec_math_fold(lines, st0).formulas)
    }
}

/// Collect the mathematical formulas of paper content: TeX equation
/// environments, inline dollar-delimited math, and lines containing
/// operators or TeX commands. When `enabled` is false (math extraction
/// switched off in the agent's configuration) nothing is collected.
pub fn extract_math_formulas(content: &str, enabled: bool) -> (r: Vec<String>)
    ensures
        views_of(r@) == spec_extract_math_formulas(content@, enabled),
{
    if !enabled {
        let r: Vec<String> = Vec::new();
        proof {
            assert(views_of(r@) =~= Seq::<Seq<char>>::empty());
        }
        return r;
    }
    let lines = split_lines(content);
    let ghost lvs = spec_lines(content@);
    let ghost st0 = MathScan { formulas: Seq::empty(), in_eq: false, cur: Seq::empty() };
    let mut formulas: Vec<String> = Vec::new();
    let mut in_eq = false;
    let mut cur = String::new();
    let mut i: usize = 0;
    proof {
        assert(lvs.take(0) =~= Seq::<Seq<char>>::empty());
        assert(views_of(formulas@) =~= Seq::<Seq<char>>::empty());
    }
    while i < lines.len()
        invariant
            i <= lines@.len(),
            views_of(lines@) == lvs,
            ({
                let st = spec_math_fold(lvs.take(i as int), st0);
                views_of(formulas@) == st.formulas && in_eq == st.in_eq && cur@ == st.cur
            }),
        decreases lines@.len() - i,
    {
        proof {
            assert(views_of(lines@)[i as int] == lines@[i as int]@);
            assert(lvs.take(i as int + 1) =~= lvs.take(i as int).push(lvs[i as int]));
            lemma_math_fold_push(lvs.take(i as int), st0, lvs[i as int]);
        }
        let lt = trim_of(lines[i].as_str());
        if contains_str(lt.as_str(), "\\begin{equation}") || contains_str(lt.as_str(), "\\[") {
            in_eq = true;
        } else if contains_str(lt.as_str(), "\\end{equation}") || contains_str(lt.as_str(), "\\]")
        {
            in_eq = false;
            let t = trim_of(cur.as_str());
            if !t.as_str().is_empty() {
                let ghost s0 = formulas@;
                formulas.push(t);
                cur = String::new();
                proof {
                    assert(views_of(s0.push(formulas@[s0.len() as int])) =~= views_of(s0).push(
                        formulas@[s0.len() as int]@,
                    ));
                }
            }
        } else if !in_eq {
            let f = inline_math_of(lt.as_str());
            if !f.as_str().is_empty() {
                let ghost s0 = formulas@;
                formulas.push(f);
                proof {
                    assert(views_of(s0.push(formulas@[s0.len() as int])) =~= views_of(s0).push(
                        formulas@[s0.len() as int]@,
                    ));
                }
            }
        } else {
            cur.append(lt.as_str());
            cur.append("\n");
        }
        i = i + 1;
    }
    proof {
        assert(lvs.take(lvs.len() as int) =~= lvs);
    }
    let mut k: usize = 0;
    let ghost base = views_of(formulas@);
    proof {
        assert(lvs.take(0) =~= Seq::<Seq<char>>::empty());
    }
    while k < lines.len()
        invariant
            k <= lines@.len(),
            views_of(lines@) == lvs,
            views_of(formulas@) == spec_math_pat_fold(lvs.take(k as int), base),
        decreases lines@.len() - k,
    {
        proof {
            assert(views_of(lines@)[k as int] == lines@[k as int]@);
            assert(lvs.take(k as int + 1) =~= lvs.take(k as int).push(lvs[k as int]));
            lemma_math_pat_fold_push(lvs.take(k as int), base, lvs[k as int]);
        }
        let lt = trim_of(lines[k].as_str());
        if is_math_pattern_line(lt.as_str()) && !vec_contains_str(&formulas, lt.as_str()) {
            let ghost s0 = formulas@;
            formulas.push(lt);
            proof {
                assert(views_of(s0.push(formulas@[s0.len() as int])) =~= views_of(s0).push(
                    formulas@[s0.len() as int]@,
                ));
            }
        }
        k = k + 1;
    }
    proof {
        assert(lvs.take(lvs.len() as int) =~= lvs);
    }
    formulas
}

} // verus!
