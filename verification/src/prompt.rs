//! Deterministic prompt assembly: the selected chunks, guidance lines
//! derived from intent flags over the lower-cased question, a fixed set of
//! global formatting rules, and the final source-line instruction.

use vstd::prelude::*;

use crate::text::{chars_of, contains_lit, contains_seq, lower_seq, lower_vec};

verus! {

/// The question asks for a list.
pub open spec fn spec_wants_list(lq: Seq<char>) -> bool {
    contains_seq(lq, "list"@) || contains_seq(lq, "which program"@)
}

/// The question asks for a deadline.
pub open spec fn spec_wants_deadline(lq: Seq<char>) -> bool {
    contains_seq(lq, "deadline"@) || contains_seq(lq, "closing date"@)
}

/// The question asks for a contact.
pub open spec fn spec_wants_contact(lq: Seq<char>) -> bool {
    contains_seq(lq, "who"@) || contains_seq(lq, "contact"@) || contains_seq(lq, "in charge"@)
}

/// The question asks for requirements.
pub open spec fn spec_wants_requirements(lq: Seq<char>) -> bool {
    ||| contains_seq(lq, "requirement"@)
    ||| contains_seq(lq, "eligibility"@)
    ||| contains_seq(lq, "admission"@)
    ||| contains_seq(lq, "uni-assist"@)
    ||| contains_seq(lq, "aps"@)
}

/// The context block: each selected chunk as its source line followed by
/// its text and a blank line.
pub open spec fn ctx_block(ctxs: Seq<(Seq<char>, Seq<char>)>) -> Seq<char>
    decreases ctxs.len(),
{
    if ctxs.len() == 0 {
        Seq::empty()
    } else {
        "SOURCE URL: "@ + ctxs[0].0 + "\n"@ + ctxs[0].1 + "\n\n"@ + ctx_block(ctxs.drop_first())
    }
}

/// The guidance lines: one per intent flag that the question sets.
pub open spec fn rules_block(lq: Seq<char>) -> Seq<char> {
    (if spec_wants_list(lq) {
        "- If the question asks for a list, provide a complete bullet list using the exact titles/names found in CONTEXT.\n"@
    } else {
        Seq::empty()
    }) + (if spec_wants_deadline(lq) {
        "- Give exact dates first (with semester labels if present), and specify the portal (e.g., uni-assist vs. university) if stated.\n"@
    } else {
        Seq::empty()
    }) + (if spec_wants_contact(lq) {
        "- Include full contact details if present: name, role, office/room, email/phone.\n"@
    } else {
        Seq::empty()
    }) + (if spec_wants_requirements(lq) {
        "- If requirements are present, include a clear checklist (degree, language level, uni-assist/APS, documents).\n"@
    } else {
        Seq::empty()
    })
}

/// The fixed global formatting rules.
pub open spec fn global_rules() -> Seq<char> {
    "- Use ONLY the CONTEXT. Do NOT invent details.\n- Quote exact numbers, dates, names and program titles.\n- Prefer concise paragraphs and bullet points. Use short headings if helpful.\n- Include short quotes only when needed to preserve exact wording.\n- End with one source line:  Source: <URL>."@
}

/// The whole prompt, literally.
pub open spec fn prompt_spec(
    q: Seq<char>,
    ctxs: Seq<(Seq<char>, Seq<char>)>,
    primary: Seq<char>,
) -> Seq<char> {
    let rules = rules_block(lower_seq(q));
    let rules_view = if rules.len() == 0 {
        "(none)"@
    } else {
        rules
    };
    let primary_view = if primary.len() == 0 {
        "(unknown)"@
    } else {
        primary
    };
    "You are an expert assistant.\n\n"@ + global_rules() + "\n\nAdditional guidance:\n"@
        + rules_view + "\n\nQUESTION:\n"@ + q + "\n\nCONTEXT:\n"@ + ctx_block(ctxs)
        + "\n\nWrite a comprehensive, precise answer strictly from the CONTEXT. Be complete (not a 3-point summary). Use clear paragraphs and bullets where helpful. End with:\nSource: "@
        + primary_view + "\n"@
}

/// Assembles the generation prompt from the question, the selected
/// `(source, text)` contexts, and the primary source (replaced by a fixed
/// placeholder when empty).
pub fn build_prompt(question: &str, contexts: &Vec<(String, String)>, primary_source: &str) -> (r:
    String)
    ensures
        r@ == prompt_spec(question@, contexts.deep_view(), primary_source@),
{
    let qv = chars_of(question);
    let lq = lower_vec(&qv);
    // The context block.
    let mut ctx = String::new();
    let n = contexts.len();
    let mut i: usize = 0;
    proof {
        assert(contexts.deep_view().skip(0) =~= contexts.deep_view());
        assert(ctx@ + ctx_block(contexts.deep_view()) =~= ctx_block(contexts.deep_view()));
    }
    while i < n
        invariant
            n == contexts@.len(),
            i <= n,
            ctx_block(contexts.deep_view()) == ctx@ + ctx_block(contexts.deep_view().skip(i as int)),
        decreases n - i,
    {
        let ghost pre = contexts.deep_view().skip(i as int);
        proof {
            assert(pre[0] == contexts.deep_view()[i as int]);
            assert(pre.drop_first() =~= contexts.deep_view().skip(i + 1));
            assert(contexts.deep_view()[i as int] == (
                contexts@[i as int].0@,
                contexts@[i as int].1@,
            ));
        }
        ctx.append("SOURCE URL: ");
        ctx.append(contexts[i].0.as_str());
        ctx.append("\n");
        ctx.append(contexts[i].1.as_str());
        ctx.append("\n\n");
        proof {
            assert(ctx@ + ctx_block(contexts.deep_view().skip(i + 1)) =~= ctx_block(
                contexts.deep_view(),
            ));
        }
        i += 1;
    }
    proof {
        assert(contexts.deep_view().skip(n as int) =~= Seq::<(Seq<char>, Seq<char>)>::empty());
        assert(ctx@ + Seq::<char>::empty() =~= ctx@);
    }
    // The guidance lines.
    let mut rules = String::new();
    if contains_lit(&lq, "list") || contains_lit(&lq, "which program") {
        rules.append(
            "- If the question asks for a list, provide a complete bullet list using the exact titles/names found in CONTEXT.\n",
        );
    }
    if contains_lit(&lq, "deadline") || contains_lit(&lq, "closing date") {
        rules.append(
            "- Give exact dates first (with semester labels if present), and specify the portal (e.g., uni-assist vs. university) if stated.\n",
        );
    }
    if contains_lit(&lq, "who") || contains_lit(&lq, "contact") || contains_lit(&lq, "in charge") {
        rules.append(
            "- Include full contact details if present: name, role, office/room, email/phone.\n",
        );
    }
    if contains_lit(&lq, "requirement") || contains_lit(&lq, "eligibility") || contains_lit(
        &lq,
        "admission",
    ) || contains_lit(&lq, "uni-assist") || contains_lit(&lq, "aps") {
        rules.append(
            "- If requirements are present, include a clear checklist (degree, language level, uni-assist/APS, documents).\n",
        );
    }
    proof {
        assert(rules@ == rules_block(lower_seq(question@)));
    }
    // Assembly.
    let mut out = String::new();
    out.append("You are an expert assistant.\n\n");
    out.append(
        "- Use ONLY the CONTEXT. Do NOT invent details.\n- Quote exact numbers, dates, names and program titles.\n- Prefer concise paragraphs and bullet points. Use short headings if helpful.\n- Include short quotes only when needed to preserve exact wording.\n- End with one source line:  Source: <URL>.",
    );
    out.append("\n\nAdditional guidance:\n");
    if rules.as_str().is_empty() {
        out.append("(none)");
    } else {
        out.append(rules.as_str());
    }
    out.append("\n\nQUESTION:\n");
    out.append(question);
    out.append("\n\nCONTEXT:\n");
    out.append(ctx.as_str());
    out.append(
        "\n\nWrite a comprehensive, precise answer strictly from the CONTEXT. Be complete (not a 3-point summary). Use clear paragraphs and bullets where helpful. End with:\nSource: ",
    );
    if primary_source.is_empty() {
        out.append("(unknown)");
    } else {
        out.append(primary_source);
    }
    out.append("\n");
    proof {
        assert(out@ =~= prompt_spec(question@, contexts.deep_view(), primary_source@));
    }
    out
}

} // verus!
