use site_qa::prompt::build_prompt;

const GLOBAL: &str = "- Use ONLY the CONTEXT. Do NOT invent details.\n- Quote exact numbers, dates, names and program titles.\n- Prefer concise paragraphs and bullet points. Use short headings if helpful.\n- Include short quotes only when needed to preserve exact wording.\n- End with one source line:  Source: <URL>.";

#[test]
fn prompt_assembles_contexts_and_flags() {
    let contexts = vec![
        ("https://a/1".to_string(), "First text".to_string()),
        ("https://b/2".to_string(), "Second text".to_string()),
    ];
    let got = build_prompt("When is the deadline?", &contexts, "https://a/1");
    let ctx = "SOURCE URL: https://a/1\nFirst text\n\nSOURCE URL: https://b/2\nSecond text\n\n";
    let rules = "- Give exact dates first (with semester labels if present), and specify the portal (e.g., uni-assist vs. university) if stated.\n";
    let expected = format!(
        "You are an expert assistant.\n\n{}\n\nAdditional guidance:\n{}\n\nQUESTION:\nWhen is the deadline?\n\nCONTEXT:\n{}\n\nWrite a comprehensive, precise answer strictly from the CONTEXT. Be complete (not a 3-point summary). Use clear paragraphs and bullets where helpful. End with:\nSource: https://a/1\n",
        GLOBAL, rules, ctx
    );
    assert_eq!(got, expected);
}

#[test]
fn prompt_without_flags_or_source_uses_placeholders() {
    let contexts: Vec<(String, String)> = Vec::new();
    let got = build_prompt("bananas", &contexts, "");
    let expected = format!(
        "You are an expert assistant.\n\n{}\n\nAdditional guidance:\n(none)\n\nQUESTION:\nbananas\n\nCONTEXT:\n\n\nWrite a comprehensive, precise answer strictly from the CONTEXT. Be complete (not a 3-point summary). Use clear paragraphs and bullets where helpful. End with:\nSource: (unknown)\n",
        GLOBAL
    );
    assert_eq!(got, expected);
}

#[test]
fn list_and_contact_and_requirement_flags_add_guidance() {
    let contexts: Vec<(String, String)> = Vec::new();
    let got = build_prompt(
        "who is in charge, list admission requirements",
        &contexts,
        "",
    );
    assert!(got.contains(
        "- If the question asks for a list, provide a complete bullet list using the exact titles/names found in CONTEXT.\n"
    ));
    assert!(got.contains(
        "- Include full contact details if present: name, role, office/room, email/phone.\n"
    ));
    assert!(got.contains(
        "- If requirements are present, include a clear checklist (degree, language level, uni-assist/APS, documents).\n"
    ));
}
