//! The pure parts of the paper-index client: paper metadata, query
//! shaping within the index's length limit, and URL construction.
//!
//! The network transport, the XML response decoding and the PDF download
//! live outside the library; they hand their results to these functions
//! and take plain values back.

use vstd::prelude::*;
use vstd::string::StrSliceExecFns;
use vstd::string::StringExecFns;
use crate::utils::error::AgentError;
use crate::utils::strings::lemma_join_sep_push;
use crate::utils::strings::spec_dec;
use crate::utils::strings::spec_join_sep;
use crate::utils::strings::spec_lines;
use crate::utils::strings::spec_split_on;
use crate::utils::strings::spec_trim;
use crate::utils::strings::spec_words;
use crate::utils::strings::split_lines;
use crate::utils::strings::split_on_char;
use crate::utils::strings::split_words;
use crate::utils::strings::trim_of;
use crate::utils::strings::usize_to_string;
use crate::utils::strings::views_of;

verus! {

/// The longest query string the paper index accepts.
pub const MAX_QUERY_LENGTH: usize = 300;

/// One paper's metadata, as the index reports it.
#[derive(Debug, Clone)]
pub struct ArxivPaper {
    pub title: String,
    pub summary: String,
    pub published: String,
    pub categories: Vec<String>,
    pub paper_id: String,
    pub pdf_url: String,
}

/// The greedy prefix of `ws` that fits the query budget: words are taken
/// in order as long as the running total of `word length + 1` (one for
/// the separating space) stays within `MAX_QUERY_LENGTH`, counting from
/// `used`.
pub open spec fn spec_take_greedy(ws: Seq<Seq<char>>, used: int) -> Seq<Seq<char>>
    decreases ws.len(),
{
    if ws.len() == 0 {
        Seq::empty()
    } else if used + ws[0].len() + 1 <= MAX_QUERY_LENGTH {
        seq![ws[0]] + spec_take_greedy(ws.drop_first(), used + ws[0].len() + 1)
    } else {
        Seq::empty()
    }
}

/// The words joined by single spaces.
pub open spec fn spec_join_words(ws: Seq<Seq<char>>) -> Seq<char> {
    spec_join_sep(ws, ' ')
}

/// What `process_query` returns: a query within the length limit is
/// passed through unchanged; a longer one is replaced by the greedy
/// prefix of its words, joined by single spaces.
pub open spec fn spec_process_query(q: Seq<char>) -> Seq<char> {
    if q.len() <= MAX_QUERY_LENGTH {
        q
    } else {
        spec_join_words(spec_take_greedy(spec_words(q), 0))
    }
}

/// Law: the greedy prefix always fits the budget — starting from `used`
/// spent characters, the joined result is never longer than what is left
/// of `MAX_QUERY_LENGTH`.
pub proof fn lemma_greedy_fits_budget(ws: Seq<Seq<char>>, used: int)
    requires
        0 <= used,
    ensures
        spec_join_words(spec_take_greedy(ws, used)).len() <= if used <= MAX_QUERY_LENGTH {
            MAX_QUERY_LENGTH - used
        } else {
            0int
        },
    decreases ws.len(),
{
    if ws.len() > 0 && used + ws[0].len() + 1 <= MAX_QUERY_LENGTH {
        let used2 = used + ws[0].len() + 1;
        lemma_greedy_fits_budget(ws.drop_first(), used2);
        let rest = spec_take_greedy(ws.drop_first(), used2);
        let g = seq![ws[0]] + rest;
        if rest.len() == 0 {
            assert(g =~= seq![ws[0]]);
            assert(spec_join_sep(g, ' ') == ws[0]);
        } else {
            assert(g.len() >= 2);
            assert(g[0] == ws[0]);
            assert(g.drop_first() =~= rest);
        }
    }
}

/// Shape a query to fit the index's length limit while preserving as
/// much information as possible: a short query is returned unchanged;
/// a long one keeps the longest whitespace-separated word prefix that
/// fits, joined by single spaces.
pub fn process_query(query: &str) -> (r: String)
    ensures
        r@ == spec_process_query(query@),
        query@.len() > MAX_QUERY_LENGTH ==> r@.len() <= MAX_QUERY_LENGTH,
{
    let n = query.unicode_len();
    if n <= MAX_QUERY_LENGTH {
        return query.to_owned();
    }
    proof {
        lemma_greedy_fits_budget(spec_words(query@), 0);
    }
    let words = split_words(query);
    let ghost allw = spec_words(query@);
    let mut used: usize = 0;
    let mut j: usize = 0;
    let mut stopped = false;
    proof {
        assert(allw.take(0) =~= Seq::<Seq<char>>::empty());
        assert(allw.skip(0) =~= allw);
        assert(Seq::<Seq<char>>::empty() + spec_take_greedy(allw, 0) =~= spec_take_greedy(
            allw,
            0,
        ));
    }
    while j < words.len() && !stopped
        invariant
            j <= words@.len(),
            views_of(words@) == allw,
            used <= MAX_QUERY_LENGTH,
            !stopped ==> spec_take_greedy(allw, 0) == allw.take(j as int) + spec_take_greedy(
                allw.skip(j as int),
                used as int,
            ),
            stopped ==> spec_take_greedy(allw, 0) == allw.take(j as int),
        decreases words@.len() - j + (if stopped { 0int } else { 1int }),
    {
        let wlen = words[j].as_str().unicode_len();
        proof {
            assert(views_of(words@)[j as int] == words@[j as int]@);
        }
        if used < MAX_QUERY_LENGTH && wlen <= MAX_QUERY_LENGTH - used - 1 {
            proof {
                let sk = allw.skip(j as int);
                assert(sk.len() > 0);
                assert(sk[0] == allw[j as int]);
                assert(sk.drop_first() =~= allw.skip(j as int + 1));
                assert(allw.take(j as int + 1) =~= allw.take(j as int).push(allw[j as int]));
                let rest = spec_take_greedy(
                    allw.skip(j as int + 1),
                    used + wlen + 1,
                );
                assert(allw.take(j as int) + (seq![allw[j as int]] + rest) =~= allw.take(
                    j as int + 1,
                ) + rest);
            }
            used = used + wlen + 1;
            j = j + 1;
        } else {
            proof {
                let sk = allw.skip(j as int);
                assert(sk.len() > 0);
                assert(sk[0] == allw[j as int]);
                assert(used + sk[0].len() + 1 > MAX_QUERY_LENGTH);
                assert(spec_take_greedy(sk, used as int) =~= Seq::<Seq<char>>::empty());
                assert(allw.take(j as int) + Seq::<Seq<char>>::empty() =~= allw.take(j as int));
            }
            stopped = true;
        }
    }
    proof {
        if !stopped {
            assert(allw.skip(j as int).len() == 0);
            assert(spec_take_greedy(allw.skip(j as int), used as int) =~= Seq::<
                Seq<char>,
            >::empty());
            assert(allw.take(j as int) + Seq::<Seq<char>>::empty() =~= allw.take(j as int));
        }
        assert(spec_take_greedy(allw, 0) == allw.take(j as int));
    }
    let mut out = String::new();
    let mut k: usize = 0;
    proof {
        assert(allw.take(0).len() == 0);
    }
    while k < j
        invariant
            k <= j <= words@.len(),
            views_of(words@) == allw,
            out@ == spec_join_words(allw.take(k as int)),
        decreases j - k,
    {
        proof {
            assert(views_of(words@)[k as int] == words@[k as int]@);
            reveal_strlit(" ");
            assert(" "@ =~= seq![' ']);
            lemma_join_sep_push(allw.take(k as int), allw[k as int], ' ');
            assert(allw.take(k as int + 1) =~= allw.take(k as int).push(allw[k as int]));
        }
        if k > 0 {
            out.append(" ");
        }
        out.append(words[k].as_str());
        k = k + 1;
    }
    out
}

/// The `application/x-www-form-urlencoded` serialisation of a text:
/// the byte serialisation of its UTF-8 bytes, a pure function of the
/// characters.
pub uninterp spec fn form_urlencoded_of(s: Seq<char>) -> Seq<char>;

/// Relies on `url::form_urlencoded::byte_serialize`: percent-encodes the
/// UTF-8 bytes of the text (space becoming `+`), a pure function of the
/// input; an empty input serialises to an empty string.
#[verifier::external_body]
fn urlencode(s: &str) -> (r: String)
    ensures
        r@ == form_urlencoded_of(s@),
        s@.len() == 0 ==> r@.len() == 0,
{
    url::form_urlencoded::byte_serialize(s.as_bytes()).collect()
}

/// Shape and encode a query for the index's search URL: the query is
/// first fitted to the length limit, then form-urlencoded.
pub fn prepare_search_query(query: &str) -> (r: String)
    ensures
        r@ == form_urlencoded_of(spec_process_query(query@)),
{
    let processed = process_query(query);
    urlencode(processed.as_str())
}

/// The PDF URL of a paper.
pub fn pdf_url_for(paper_id: &str) -> (r: String)
    ensures
        r@ == "https://arxiv.org/pdf/"@ + paper_id@ + ".pdf"@,
{
    "https://arxiv.org/pdf/".to_owned().concat(paper_id).concat(".pdf")
}

/// The non-empty trimmed lines of a page, in order.
pub open spec fn spec_clean_fold(ls: Seq<Seq<char>>, acc: Seq<Seq<char>>) -> Seq<Seq<char>>
    decreases ls.len(),
{
    if ls.len() == 0 {
        acc
    } else {
        spec_clean_fold(
            ls.drop_first(),
            if spec_trim(ls[0]).len() > 0 {
                acc.push(spec_trim(ls[0]))
            } else {
                acc
            },
        )
    }
}

proof fn lemma_clean_fold_push(ls: Seq<Seq<char>>, acc: Seq<Seq<char>>, l: Seq<char>)
    ensures
        spec_clean_fold(ls.push(l), acc) == (if spec_trim(l).len() > 0 {
            spec_clean_fold(ls, acc).push(spec_trim(l))
        } else {
            spec_clean_fold(ls, acc)
        }),
    decreases ls.len(),
{
    if ls.len() == 0 {
        assert(ls.push(l)[0] == l);
        assert(ls.push(l).drop_first() =~= Seq::<Seq<char>>::empty());
        assert(spec_clean_fold(ls, acc) == acc);
        let acc2 = if spec_trim(l).len() > 0 {
            acc.push(spec_trim(l))
        } else {
            acc
        };
        assert(spec_clean_fold(Seq::<Seq<char>>::empty(), acc2) == acc2);
    } else {
        assert(ls.push(l)[0] == ls[0]);
        assert(ls.push(l).drop_first() =~= ls.drop_first().push(l));
        lemma_clean_fold_push(
            ls.drop_first(),
            if spec_trim(ls[0]).len() > 0 {
                acc.push(spec_trim(ls[0]))
            } else {
                acc
            },
            l,
        );
    }
}

/// A page's cleaned text: the page trimmed, split into lines, each line
/// trimmed, empty lines dropped, the rest joined by newlines.
pub open spec fn spec_clean_page(p: Seq<char>) -> Seq<char> {
    spec_join_sep(spec_clean_fold(spec_lines(spec_trim(p)), Seq::empty()), '\n')
}

fn clean_page(page: &str) -> (r: String)
    ensures
        r@ == spec_clean_page(page@),
{
    let trimmed = trim_of(page);
    let lines = split_lines(trimmed.as_str());
    let ghost lvs = spec_lines(spec_trim(page@));
    let mut kept: Vec<String> = Vec::new();
    let mut i: usize = 0;
    proof {
        assert(lvs.take(0) =~= Seq::<Seq<char>>::empty());
        assert(views_of(kept@) =~= Seq::<Seq<char>>::empty());
    }
    while i < lines.len()
        invariant
            i <= lines@.len(),
            views_of(lines@) == lvs,
            views_of(kept@) == spec_clean_fold(lvs.take(i as int), Seq::empty()),
        decreases lines@.len() - i,
    {
        proof {
            assert(views_of(lines@)[i as int] == lines@[i as int]@);
            assert(lvs.take(i as int + 1) =~= lvs.take(i as int).push(lvs[i as int]));
            lemma_clean_fold_push(lvs.take(i as int), Seq::empty(), lvs[i as int]);
        }
        let t = trim_of(lines[i].as_str());
        if !t.as_str().is_empty() {
            let ghost k0 = kept@;
            kept.push(t);
            proof {
                assert(views_of(k0.push(kept@[k0.len() as int])) =~= views_of(k0).push(
                    kept@[k0.len() as int]@,
                ));
            }
        }
        i = i + 1;
    }
    proof {
        assert(lvs.take(lvs.len() as int) =~= lvs);
    }
    let ghost cleaned = spec_clean_fold(lvs, Seq::empty());
    let mut out = String::new();
    let mut k: usize = 0;
    proof {
        assert(cleaned.take(0) =~= Seq::<Seq<char>>::empty());
    }
    while k < kept.len()
        invariant
            k <= kept@.len(),
            views_of(kept@) == cleaned,
            out@ == spec_join_sep(cleaned.take(k as int), '\n'),
        decreases kept@.len() - k,
    {
        proof {
            assert(views_of(kept@)[k as int] == kept@[k as int]@);
            reveal_strlit("\n");
            assert("\n"@ =~= seq!['\n']);
            lemma_join_sep_push(cleaned.take(k as int), cleaned[k as int], '\n');
            assert(cleaned.take(k as int + 1) =~= cleaned.take(k as int).push(cleaned[k as int]));
        }
        if k > 0 {
            out.append("\n");
        }
        out.append(kept[k].as_str());
        k = k + 1;
    }
    proof {
        assert(cleaned.take(cleaned.len() as int) =~= cleaned);
    }
    out
}

/// The formatted text of the pages numbered `k` onwards, appended to
/// `acc`: each page with cleaned text contributes a page marker and that
/// text; pages without text are dropped.
pub open spec fn spec_format_fold(pages: Seq<Seq<char>>, k: nat, acc: Seq<char>) -> Seq<char>
    decreases pages.len(),
{
    if pages.len() == 0 {
        acc
    } else {
        let c = spec_clean_page(pages[0]);
        spec_format_fold(
            pages.drop_first(),
            k + 1,
            if c.len() > 0 {
                acc + "\n=== Page "@ + spec_dec(k) + " ===\n\n"@ + c + "\n"@
            } else {
                acc
            },
        )
    }
}

proof fn lemma_format_fold_push(pages: Seq<Seq<char>>, p: Seq<char>, k: nat, acc: Seq<char>)
    ensures
        spec_format_fold(pages.push(p), k, acc) == (if spec_clean_page(p).len() > 0 {
            spec_format_fold(pages, k, acc) + "\n=== Page "@ + spec_dec(k + pages.len())
                + " ===\n\n"@ + spec_clean_page(p) + "\n"@
        } else {
            spec_format_fold(pages, k, acc)
        }),
    decreases pages.len(),
{
    if pages.len() == 0 {
        assert(pages.push(p)[0] == p);
        assert(pages.push(p).drop_first() =~= Seq::<Seq<char>>::empty());
        assert(spec_format_fold(pages, k, acc) == acc);
        let c = spec_clean_page(p);
        let acc2 = if c.len() > 0 {
            acc + "\n=== Page "@ + spec_dec(k) + " ===\n\n"@ + c + "\n"@
        } else {
            acc
        };
        assert(spec_format_fold(Seq::<Seq<char>>::empty(), k + 1, acc2) == acc2);
    } else {
        assert(pages.push(p)[0] == pages[0]);
        assert(pages.push(p).drop_first() =~= pages.drop_first().push(p));
        let c0 = spec_clean_page(pages[0]);
        lemma_format_fold_push(
            pages.drop_first(),
            p,
            k + 1,
            if c0.len() > 0 {
                acc + "\n=== Page "@ + spec_dec(k) + " ===\n\n"@ + c0 + "\n"@
            } else {
                acc
            },
        );
    }
}

/// The formatted text extracted from a PDF: its form-feed-separated
/// pages cleaned and joined under one-based page markers.
pub open spec fn spec_format_pdf_text(t: Seq<char>) -> Seq<char> {
    spec_format_fold(spec_split_on(t, '\x0C'), 1, Seq::empty())
}

/// Format the raw text of a PDF into page-marked, cleaned text. Raw text
/// whose pages are all blank — and only such text — is rejected, as a
/// PDF with no text content.
pub fn format_extracted_text(text: &str) -> (r: Result<String, AgentError>)
    ensures
        r matches Ok(s) ==> s@ == spec_format_pdf_text(text@) && s@.len() > 0,
        r matches Err(e) ==> spec_format_pdf_text(text@).len() == 0 && (e matches
            AgentError::PdfProcessing(m) && m@ == "No text content found in PDF"@),
        r is Ok <==> spec_format_pdf_text(text@).len() > 0,
{
    let pages = split_on_char(text, '\x0C');
    let ghost pvs = spec_split_on(text@, '\x0C');
    let mut out = String::new();
    let mut i: usize = 0;
    proof {
        assert(pvs.take(0) =~= Seq::<Seq<char>>::empty());
    }
    while i < pages.len()
        invariant
            i <= pages@.len(),
            views_of(pages@) == pvs,
            out@ == spec_format_fold(pvs.take(i as int), 1, Seq::empty()),
        decreases pages@.len() - i,
    {
        proof {
            assert(views_of(pages@)[i as int] == pages@[i as int]@);
            assert(pvs.take(i as int + 1) =~= pvs.take(i as int).push(pvs[i as int]));
            lemma_format_fold_push(pvs.take(i as int), pvs[i as int], 1, Seq::empty());
        }
        let c = clean_page(pages[i].as_str());
        if !c.as_str().is_empty() {
            let marker = usize_to_string(i + 1);
            out.append("\n=== Page ");
            out.append(marker.as_str());
            out.append(" ===\n\n");
            out.append(c.as_str());
            out.append("\n");
        }
        i = i + 1;
    }
    proof {
        assert(pvs.take(pvs.len() as int) =~= pvs);
    }
    if out.as_str().is_empty() {
        Err(AgentError::PdfProcessing("No text content found in PDF".to_owned()))
    } else {
        Ok(out)
    }
}

} // verus!
