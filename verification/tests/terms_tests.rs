use site_qa::query::expand_query_terms;
use site_qa::terms::{bow_tf, TermCounts};
use site_qa::text::tokenize_lower;

#[test]
fn bow_counts_each_token() {
    let toks = tokenize_lower("a b a B!a");
    let m = bow_tf(&toks);
    assert_eq!(m.count_of("a"), 3);
    assert_eq!(m.count_of("b"), 2);
    assert_eq!(m.count_of("c"), 0);
}

#[test]
fn counts_accumulate() {
    let mut m = TermCounts::new();
    m.increment("x");
    m.increment("x");
    m.add_count("y", 5);
    assert_eq!(m.count_of("x"), 2);
    assert_eq!(m.count_of("y"), 5);
    assert_eq!(m.num_terms(), 2);
}

#[test]
fn deadline_query_gains_synonyms() {
    let terms = expand_query_terms("When is the application deadline?");
    let has = |t: &str| terms.iter().any(|x| x == t);
    assert!(has("when"));
    assert!(has("deadline"));
    assert!(has("application"));
    assert!(has("closing"));
    assert!(has("date"));
}

#[test]
fn credit_query_gains_curriculum_terms() {
    let terms = expand_query_terms("how many credits?");
    let has = |t: &str| terms.iter().any(|x| x == t);
    assert!(has("credits"));
    assert!(has("ects"));
    assert!(has("credit"));
    assert!(has("module"));
    assert!(has("thesis"));
}

#[test]
fn expanded_terms_are_distinct() {
    let terms = expand_query_terms("deadline deadline deadline");
    for i in 0..terms.len() {
        for j in 0..terms.len() {
            if i != j {
                assert_ne!(terms[i], terms[j]);
            }
        }
    }
}

#[test]
fn plain_query_expands_to_its_tokens() {
    let mut terms = expand_query_terms("bananas are yellow");
    terms.sort();
    assert_eq!(terms, vec!["are".to_string(), "bananas".to_string(), "yellow".to_string()]);
}
