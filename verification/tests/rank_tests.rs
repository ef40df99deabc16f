use site_qa::rank::{append_source_if_missing, choose_primary_source, collect_sources,
    keyword_bonus_tenths, retrieval_k, stage1_keep, wants_program_list};

#[test]
fn curriculum_head_scores_nine_tenths() {
    assert_eq!(keyword_bonus_tenths("ects info", "", "ects?"), 9);
    assert_eq!(keyword_bonus_tenths("nothing here", "", "ects?"), 0);
    // A hit in the source counts too.
    assert_eq!(keyword_bonus_tenths("nothing here", "https://x/ects", "ects?"), 9);
}

#[test]
fn contact_question_scores_name_and_contact_patterns() {
    let bonus = keyword_bonus_tenths("Contact Anna Meyer room 12 or a@b.de", "", "who is in charge");
    // A capitalized name pair earns 5 and a mail sign or room number 3.
    assert_eq!(bonus, 8);
    // Without the contact-style question neither pattern counts.
    assert_eq!(keyword_bonus_tenths("Contact Anna Meyer a@b.de", "", "bananas"), 0);
}

#[test]
fn shared_small_numbers_score_two_each() {
    assert_eq!(keyword_bonus_tenths("room 12", "", "is it room 12?"), 2);
    // Each occurrence in the question counts.
    assert_eq!(keyword_bonus_tenths("room 12", "", "12 and 12"), 4);
    // A four-digit run is not a small number.
    assert_eq!(keyword_bonus_tenths("year 2024", "", "in 2024?"), 0);
    // A digit run glued to letters has no word boundary.
    assert_eq!(keyword_bonus_tenths("ab12", "", "ab12"), 0);
}

#[test]
fn bonus_is_capped_at_twenty_tenths() {
    let q = "ects credit credits thesis module modules";
    let bonus = keyword_bonus_tenths(q, "", q);
    assert_eq!(bonus, 20);
}

#[test]
fn retrieval_depth_defaults() {
    assert!(wants_program_list("list programs in english"));
    assert!(!wants_program_list("when is the deadline"));
    assert_eq!(retrieval_k("list programs in english", None), 30);
    assert_eq!(retrieval_k("list programs in english", Some(5)), 5);
    assert_eq!(retrieval_k("list programs in english", Some(50)), 30);
    assert_eq!(retrieval_k("when is the deadline", None), 18);
    assert_eq!(retrieval_k("when is the deadline", Some(99)), 18);
}

#[test]
fn coarse_stage_keeps_at_least_fifty() {
    assert_eq!(stage1_keep(10), 50);
    assert_eq!(stage1_keep(50), 50);
    assert_eq!(stage1_keep(60), 60);
}

#[test]
fn primary_source_is_the_top_pick() {
    let picks = vec![
        ("https://a/1".to_string(), "text one".to_string()),
        ("https://b/2".to_string(), "text two".to_string()),
    ];
    assert_eq!(choose_primary_source(&picks), "https://a/1");
    assert_eq!(choose_primary_source(&Vec::new()), "");
}

#[test]
fn sources_deduplicate_and_cap_at_eight() {
    let urls: Vec<String> = ["a", "p", "b", "c", "d", "e", "f", "g", "h"]
        .iter()
        .map(|s| s.to_string())
        .collect();
    let sources = collect_sources("p", &urls);
    assert_eq!(sources, vec!["p", "a", "b", "c", "d", "e", "f", "g"]);
    let no_primary = collect_sources("", &urls);
    assert_eq!(no_primary.len(), 8);
    assert_eq!(no_primary[0], "a");
}

#[test]
fn answers_without_a_source_get_one() {
    let sources = vec!["https://a/1".to_string()];
    assert_eq!(
        append_source_if_missing("The deadline is March 1.".to_string(), &sources),
        "The deadline is March 1.\n\nSource: https://a/1"
    );
    assert_eq!(
        append_source_if_missing("All done.\nSource: https://a/1".to_string(), &sources),
        "All done.\nSource: https://a/1"
    );
    assert_eq!(append_source_if_missing("No sources.".to_string(), &Vec::new()), "No sources.");
}
