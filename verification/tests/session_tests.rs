use site_qa::index::{plan_chunks, Index};
use site_qa::params::{chosen_depth, chosen_max_pages, fetch_backoff_ms, pdf_size_ok};
use site_qa::session::SessionStore;

fn small_index(text: &str) -> Index {
    let pairs = vec![("u".to_string(), text.to_string())];
    Index::build(
        plan_chunks(&pairs, 100, 10),
        "m".to_string(),
        "g".to_string(),
        "t".to_string(),
        "s".to_string(),
    )
}

#[test]
fn sessions_are_created_taken_and_reinserted() {
    let mut store = SessionStore::new();
    assert!(!store.has("alpha"));
    assert!(store.take("alpha").is_none());

    store.put("alpha".to_string(), small_index("one two"));
    assert!(store.has("alpha"));
    assert!(!store.has("beta"));

    let idx = store.take("alpha").expect("the session exists");
    assert_eq!(idx.total_docs, 1);
    assert!(!store.has("alpha"));

    store.put("alpha".to_string(), idx);
    store.put("beta".to_string(), small_index("three"));
    assert!(store.has("alpha"));
    assert!(store.has("beta"));
}

#[test]
fn sessions_grow_by_extension() {
    let mut store = SessionStore::new();
    store.put("s".to_string(), small_index("first page words"));
    let mut idx = store.take("s").expect("created above");
    let before = idx.total_docs;
    let pairs = vec![("u2".to_string(), "second page".to_string())];
    idx.extend(plan_chunks(&pairs, 100, 10));
    assert_eq!(idx.total_docs, before + 1);
    store.put("s".to_string(), idx);
}

#[test]
fn crawl_request_defaults() {
    assert_eq!(chosen_depth(None), 3);
    assert_eq!(chosen_depth(Some(0)), 3);
    assert_eq!(chosen_depth(Some(2)), 2);
    assert_eq!(chosen_max_pages(None), 200);
    assert_eq!(chosen_max_pages(Some(0)), 200);
    assert_eq!(chosen_max_pages(Some(7)), 7);
}

#[test]
fn fetch_and_pdf_bounds() {
    assert_eq!(fetch_backoff_ms(1), 180);
    assert_eq!(fetch_backoff_ms(2), 360);
    assert!(pdf_size_ok(12 * 1024 * 1024));
    assert!(!pdf_size_ok(12 * 1024 * 1024 + 1));
}
