//! Extraction of text and links from fetched HTML, and the routing of
//! uploaded files by extension. The HTML parsing itself is the `scraper`
//! crate's work behind a trusted boundary; the selector priority, the
//! whitespace normalization and the link absolutization are verified
//! logic.

use vstd::prelude::*;

use crate::text::{collapsed_ws, lower_seq, lower_vec, chars_of, str_eq, string_of};
use crate::urls::{join_url, url_join};

verus! {

/// Names the text nodes under the first element matching a selector:
/// `None` when the selector does not parse or nothing matches. A function
/// of the document and the selector alone.
pub uninterp spec fn texts_under(html: Seq<char>, sel: Seq<char>) -> Option<Seq<Seq<char>>>;

/// Relies on scraper's `Html::parse_document`, `Selector::parse`,
/// `select` and `text`: all deterministic in the document and selector
/// strings, so the result is named by [`texts_under`].
#[verifier::external_body]
fn select_texts(html: &str, sel: &str) -> (r: Option<Vec<String>>)
    ensures
        r is Some <==> texts_under(html@, sel@) is Some,
        r matches Some(v) ==> texts_under(html@, sel@) == Some(v.deep_view()),
{
    let doc = scraper::Html::parse_document(html);
    match scraper::Selector::parse(sel) {
        Ok(s) => doc.select(&s).next().map(
            |node| node.text().map(|t| t.to_string()).collect(),
        ),
        Err(_) => None,
    }
}

/// Names the raw `href` attribute values of the document's anchors, in
/// document order: a function of the document alone.
pub uninterp spec fn hrefs_of(html: Seq<char>) -> Seq<Seq<char>>;

/// Relies on scraper's `Html::parse_document`, the `a[href]` selector and
/// `attr`: deterministic in the document string, so the result is named
/// by [`hrefs_of`].
#[verifier::external_body]
fn select_hrefs(html: &str) -> (r: Vec<String>)
    ensures
        r.deep_view() == hrefs_of(html@),
{
    let doc = scraper::Html::parse_document(html);
    match scraper::Selector::parse("a[href]") {
        Ok(sel) => doc.select(&sel).filter_map(
            |a| a.value().attr("href").map(|h| h.to_string()),
        ).collect(),
        Err(_) => Vec::new(),
    }
}

/// The text nodes the extractor works on: those under `main`, else under
/// `article`, else under `body`, else nothing.
pub open spec fn chosen_texts(html: Seq<char>) -> Seq<Seq<char>> {
    if texts_under(html, "main"@) is Some {
        texts_under(html, "main"@)->Some_0
    } else if texts_under(html, "article"@) is Some {
        texts_under(html, "article"@)->Some_0
    } else if texts_under(html, "body"@) is Some {
        texts_under(html, "body"@)->Some_0
    } else {
        Seq::empty()
    }
}

/// The text buffer: each text node collapsed, non-blank ones joined with
/// a trailing space each.
pub open spec fn text_buffer(ts: Seq<Seq<char>>) -> Seq<char>
    decreases ts.len(),
{
    if ts.len() == 0 {
        Seq::empty()
    } else {
        text_buffer(ts.drop_last()) + (if collapsed_ws(ts.last()).len() > 0 {
            collapsed_ws(ts.last()) + seq![' ']
        } else {
            Seq::empty()
        })
    }
}

/// The page text the extractor returns.
pub open spec fn extracted_text(html: Seq<char>) -> Seq<char> {
    collapsed_ws(text_buffer(chosen_texts(html)))
}

/// The page's outbound links: every anchor's `href` joined against the
/// base URL, unjoinable ones dropped.
pub open spec fn joined_links(base: Seq<char>, hs: Seq<Seq<char>>) -> Seq<Seq<char>>
    decreases hs.len(),
{
    if hs.len() == 0 {
        Seq::empty()
    } else {
        joined_links(base, hs.drop_last()) + (match url_join(base, hs.last()) {
            Some(u) => seq![u],
            None => Seq::empty(),
        })
    }
}

/// Extracts the page text (from `main`, `article` or `body`, in that
/// order of preference, whitespace-collapsed) and the absolutized
/// outbound links of a fetched HTML document.
pub fn extract_text_and_links(base: &str, html: &str) -> (res: (String, Vec<String>))
    ensures
        res.0@ == extracted_text(html@),
        res.1.deep_view() == joined_links(base@, hrefs_of(html@)),
{
    let mut texts: Option<Vec<String>> = select_texts(html, "main");
    if texts.is_none() {
        texts = select_texts(html, "article");
    }
    if texts.is_none() {
        texts = select_texts(html, "body");
    }
    let mut buf = String::new();
    match texts {
        Some(v) => {
            proof {
                assert(v.deep_view() == chosen_texts(html@));
            }
            let n = v.len();
            let mut i: usize = 0;
            proof {
                assert(text_buffer(v.deep_view().take(0)) =~= Seq::<char>::empty());
                assert(v.deep_view().take(0) =~= Seq::<Seq<char>>::empty());
            }
            while i < n
                invariant
                    n == v@.len(),
                    i <= n,
                    buf@ == text_buffer(v.deep_view().take(i as int)),
                decreases n - i,
            {
                let piece = crate::text::normalize_ws(v[i].as_str());
                proof {
                    assert(v.deep_view().take(i + 1).drop_last() =~= v.deep_view().take(i as int));
                    assert(v.deep_view().take(i + 1).last() == v.deep_view()[i as int]);
                    assert(v.deep_view()[i as int] == v@[i as int]@);
                }
                if !piece.as_str().is_empty() {
                    buf.append(piece.as_str());
                    buf.append(" ");
                    proof {
                        reveal_strlit(" ");
                        assert(collapsed_ws(v@[i as int]@) + seq![' '] =~= piece@ + " "@);
                    }
                }
                i += 1;
            }
            proof {
                assert(v.deep_view().take(n as int) =~= v.deep_view());
            }
        },
        None => {
            proof {
                assert(chosen_texts(html@) =~= Seq::<Seq<char>>::empty());
            }
        },
    }
    let text = crate::text::normalize_ws(buf.as_str());
    let hrefs = select_hrefs(html);
    let mut links: Vec<String> = Vec::new();
    let hn = hrefs.len();
    let mut j: usize = 0;
    proof {
        assert(hrefs.deep_view().take(0) =~= Seq::<Seq<char>>::empty());
        assert(links.deep_view() =~= joined_links(base@, hrefs.deep_view().take(0)));
    }
    while j < hn
        invariant
            hn == hrefs@.len(),
            j <= hn,
            links.deep_view() == joined_links(base@, hrefs.deep_view().take(j as int)),
        decreases hn - j,
    {
        proof {
            assert(hrefs.deep_view().take(j + 1).drop_last() =~= hrefs.deep_view().take(j as int));
            assert(hrefs.deep_view().take(j + 1).last() == hrefs.deep_view()[j as int]);
            assert(hrefs.deep_view()[j as int] == hrefs@[j as int]@);
        }
        match join_url(base, hrefs[j].as_str()) {
            Some(u) => {
                let ghost l0 = links.deep_view();
                links.push(u);
                proof {
                    assert(links.deep_view() =~= l0.push(
                        url_join(base@, hrefs@[j as int]@)->Some_0,
                    ));
                }
            },
            None => {},
        }
        j += 1;
    }
    proof {
        assert(hrefs.deep_view().take(hn as int) =~= hrefs.deep_view());
    }
    (text, links)
}

/// How an uploaded file is extracted, by its (lower-cased) extension.
#[derive(Clone, Copy, Debug, PartialEq, Eq, Structural)]
pub enum UploadKind {
    /// A PDF: converted by the PDF pipeline.
    Pdf,
    /// Plain text or Markdown: read as-is (whitespace-collapsed).
    Plain,
    /// An HTML file: run through the HTML text extractor.
    Html,
    /// A format a document converter handles (docx, pptx, odt).
    Converter,
    /// Anything else: a converter may still be tried, else unsupported.
    Other,
}

/// The routing of an extension (already lower-cased).
pub open spec fn spec_classify_upload(ext: Seq<char>) -> UploadKind {
    if ext == "pdf"@ {
        UploadKind::Pdf
    } else if ext == "txt"@ || ext == "md"@ {
        UploadKind::Plain
    } else if ext == "html"@ || ext == "htm"@ {
        UploadKind::Html
    } else if ext == "docx"@ || ext == "pptx"@ || ext == "odt"@ {
        UploadKind::Converter
    } else {
        UploadKind::Other
    }
}

/// Routes an uploaded file by its extension (case-insensitively).
pub fn classify_upload(ext: &str) -> (k: UploadKind)
    ensures
        k == spec_classify_upload(lower_seq(ext@)),
{
    let ev = chars_of(ext);
    let lowered = lower_vec(&ev);
    let ls = string_of(&lowered);
    let l = ls.as_str();
    if str_eq(l, "pdf") {
        UploadKind::Pdf
    } else if str_eq(l, "txt") || str_eq(l, "md") {
        UploadKind::Plain
    } else if str_eq(l, "html") || str_eq(l, "htm") {
        UploadKind::Html
    } else if str_eq(l, "docx") || str_eq(l, "pptx") || str_eq(l, "odt") {
        UploadKind::Converter
    } else {
        UploadKind::Other
    }
}

} // verus!
