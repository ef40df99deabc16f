use site_qa::index::{plan_chunks, Index};

fn pairs(list: &[(&str, &str)]) -> Vec<(String, String)> {
    list.iter().map(|(a, b)| (a.to_string(), b.to_string())).collect()
}

#[test]
fn planning_derives_ids_and_statistics() {
    let b = plan_chunks(&pairs(&[("u1", "alpha beta alpha")]), 100, 10);
    assert_eq!(b.total_docs, 1);
    assert_eq!(b.chunks.len(), 1);
    assert_eq!(b.chunks[0].id, "u1#0");
    assert_eq!(b.chunks[0].url, "u1");
    assert_eq!(b.chunks[0].text, "alpha beta alpha");
    assert_eq!(b.chunks[0].tok_len, 3);
    assert_eq!(b.chunks[0].tf.count_of("alpha"), 2);
    assert_eq!(b.chunks[0].tf.count_of("beta"), 1);
    assert_eq!(b.df.count_of("alpha"), 1);
    assert_eq!(b.total_len, 3);
}

#[test]
fn window_ordinals_number_the_windows() {
    let b = plan_chunks(&pairs(&[("u", "abcdefghij")]), 4, 1);
    let ids: Vec<&str> = b.chunks.iter().map(|c| c.id.as_str()).collect();
    assert_eq!(ids, vec!["u#0", "u#1", "u#2"]);
}

#[test]
fn duplicate_text_planned_once() {
    // The same window text appears under two sources within one call:
    // only its first appearance is kept, so it would be embedded once.
    let b = plan_chunks(&pairs(&[("a", "sametext"), ("b", "sametext")]), 100, 10);
    assert_eq!(b.total_docs, 1);
    assert_eq!(b.chunks[0].url, "a");
}

#[test]
fn duplicates_across_calls_are_kept() {
    let b1 = plan_chunks(&pairs(&[("a", "sametext")]), 100, 10);
    let b2 = plan_chunks(&pairs(&[("b", "sametext")]), 100, 10);
    assert_eq!(b1.total_docs + b2.total_docs, 2);
}

#[test]
fn extend_updates_totals_exactly() {
    let b1 = plan_chunks(&pairs(&[("u1", "alpha beta gamma")]), 100, 10);
    let b2 = plan_chunks(&pairs(&[("u2", "beta delta"), ("u3", "gamma gamma")]), 100, 10);
    let added = b2.total_docs;
    let mut idx = Index::build(
        b1,
        "embed-model".to_string(),
        "gen-model".to_string(),
        "now".to_string(),
        "https://scope".to_string(),
    );
    let docs_before = idx.total_docs;
    idx.extend(b2);
    assert_eq!(idx.total_docs, docs_before + added);
    assert_eq!(idx.total_docs, 3);
    assert_eq!(idx.df_of("beta"), 2);
    assert_eq!(idx.df_of("gamma"), 2);
    assert_eq!(idx.df_of("alpha"), 1);
    assert_eq!(idx.df_of("delta"), 1);
    assert_eq!(idx.df_of("missing"), 0);
}

#[test]
fn extend_matches_from_scratch_rebuild() {
    let all = pairs(&[("u1", "alpha beta gamma"), ("u2", "beta delta"), ("u3", "gamma gamma")]);
    let rebuild = plan_chunks(&all, 100, 10);
    let whole = Index::build(
        rebuild,
        "m".to_string(),
        "g".to_string(),
        "t".to_string(),
        "s".to_string(),
    );

    let b1 = plan_chunks(&pairs(&[("u1", "alpha beta gamma")]), 100, 10);
    let b2 = plan_chunks(&pairs(&[("u2", "beta delta"), ("u3", "gamma gamma")]), 100, 10);
    let mut grown = Index::build(
        b1,
        "m".to_string(),
        "g".to_string(),
        "t".to_string(),
        "s".to_string(),
    );
    grown.extend(b2);

    assert_eq!(grown.total_docs, whole.total_docs);
    assert_eq!(grown.total_len, whole.total_len);
    for t in ["alpha", "beta", "gamma", "delta"] {
        assert_eq!(grown.df_of(t), whole.df_of(t));
    }
}

#[test]
fn distinct_sources_are_counted() {
    let b = plan_chunks(
        &pairs(&[("u1", "one text"), ("u2", "another text here"), ("u1", "more words")]),
        100,
        10,
    );
    let idx = Index::build(
        b,
        "m".to_string(),
        "g".to_string(),
        "t".to_string(),
        "s".to_string(),
    );
    assert_eq!(idx.distinct_source_count(), 2);
}

#[test]
fn deadline_lexical_signals() {
    // The ingredients behind ranking a deadline chunk first: the deadline
    // chunk holds the expanded query terms, the unrelated chunk does not.
    let b = plan_chunks(
        &pairs(
            &[
                ("u1", "The closing date: March 1 is the application deadline"),
                ("u2", "Bananas are yellow fruit"),
            ],
        ),
        200,
        20,
    );
    let idx = Index::build(
        b,
        "m".to_string(),
        "g".to_string(),
        "t".to_string(),
        "s".to_string(),
    );
    let terms = site_qa::query::expand_query_terms("When is the deadline?");
    let deadline_hits: usize = terms.iter().map(|t| idx.chunks[0].tf.count_of(t)).sum();
    let banana_hits: usize = terms.iter().map(|t| idx.chunks[1].tf.count_of(t)).sum();
    assert!(deadline_hits >= 3);
    assert_eq!(banana_hits, 0);
}
