use site_qa::crawl::{CrawlConfig, CrawlStep, Crawler};

fn config(max_depth: usize, max_pages: usize) -> CrawlConfig {
    CrawlConfig {
        max_depth,
        scope_prefix: "https://site.example".to_string(),
        max_pages,
        link_cap: 30,
        allow_pdfs: false,
    }
}

#[test]
fn in_scope_link_followed_out_of_scope_never_fetched() {
    let seed = "https://site.example/".to_string();
    let mut c = Crawler::new(seed.clone(), config(1, 10));
    let mut fetched: Vec<String> = Vec::new();
    // Seed page with one in-scope and one out-of-scope link.
    match c.step() {
        CrawlStep::FetchPage { url, depth, .. } => {
            assert_eq!(url, seed);
            assert_eq!(depth, 0);
            fetched.push(url);
            c.on_page(
                "Welcome".to_string(),
                vec![
                    "https://site.example/a#frag".to_string(),
                    "https://other.example/b".to_string(),
                ],
                true,
            );
        }
        _ => panic!("expected the seed fetch"),
    }
    // Only the in-scope link comes next.
    match c.step() {
        CrawlStep::FetchPage { url, depth, .. } => {
            assert_eq!(url, "https://site.example/a#frag");
            assert_eq!(depth, 1);
            fetched.push(url);
            c.on_page("Second".to_string(), vec!["https://site.example/c".to_string()], true);
        }
        _ => panic!("expected the in-scope fetch"),
    }
    // Depth 1 pages expand nothing, so the crawl ends.
    match c.step() {
        CrawlStep::Done => {}
        _ => panic!("expected the crawl to end"),
    }
    assert_eq!(fetched.len(), 2);
    assert!(fetched.iter().all(|u| u.starts_with("https://site.example")));
    assert_eq!(
        c.out,
        vec![
            ("https://site.example/".to_string(), "Welcome".to_string()),
            ("https://site.example/a".to_string(), "Second".to_string()),
        ]
    );
}

#[test]
fn page_budget_is_never_exceeded() {
    let seed = "https://site.example/".to_string();
    let mut c = Crawler::new(seed.clone(), config(3, 1));
    match c.step() {
        CrawlStep::FetchPage { .. } => {
            c.on_page(
                "Front".to_string(),
                vec![
                    "https://site.example/a".to_string(),
                    "https://site.example/b".to_string(),
                ],
                true,
            );
        }
        _ => panic!("expected the seed fetch"),
    }
    match c.step() {
        CrawlStep::Done => {}
        _ => panic!("budget of one page must end the crawl"),
    }
    assert_eq!(c.out.len(), 1);
}

#[test]
fn duplicate_links_fetched_once() {
    let seed = "https://site.example/".to_string();
    let mut c = Crawler::new(seed.clone(), config(2, 10));
    match c.step() {
        CrawlStep::FetchPage { .. } => {
            c.on_page(
                "Front".to_string(),
                vec![
                    "https://site.example/a".to_string(),
                    "https://site.example/a#section".to_string(),
                ],
                true,
            );
        }
        _ => panic!("expected the seed fetch"),
    }
    let mut page_fetches = 0usize;
    loop {
        match c.step() {
            CrawlStep::FetchPage { .. } => {
                page_fetches += 1;
                c.on_page("x".to_string(), vec![], true);
            }
            CrawlStep::FetchPdf { .. } => panic!("no pdfs configured"),
            CrawlStep::Done => break,
        }
    }
    // The two links share one canonical URL, so one fetch.
    assert_eq!(page_fetches, 1);
}

#[test]
fn same_origin_pdfs_fetched_out_of_band() {
    let seed = "https://site.example/".to_string();
    let mut cfg = config(2, 10);
    cfg.allow_pdfs = true;
    let mut c = Crawler::new(seed.clone(), cfg);
    match c.step() {
        CrawlStep::FetchPage { .. } => {
            c.on_page(
                "Front".to_string(),
                vec![
                    "https://site.example/doc.pdf".to_string(),
                    "https://other.example/far.pdf".to_string(),
                ],
                true,
            );
        }
        _ => panic!("expected the seed fetch"),
    }
    // Only the same-origin PDF is fetched; the cross-origin one never is.
    match c.step() {
        CrawlStep::FetchPdf { url, .. } => {
            assert_eq!(url, "https://site.example/doc.pdf");
            c.on_pdf(Some("PDF text".to_string()));
        }
        _ => panic!("expected the PDF fetch"),
    }
    match c.step() {
        CrawlStep::Done => {}
        other => {
            if let CrawlStep::FetchPdf { url, .. } = other {
                panic!("cross-origin PDF must not be fetched: {url}");
            }
            panic!("expected the crawl to end");
        }
    }
    assert_eq!(
        c.out,
        vec![
            ("https://site.example/".to_string(), "Front".to_string()),
            ("https://site.example/doc.pdf".to_string(), "PDF text".to_string()),
        ]
    );
}

#[test]
fn failed_fetches_are_swallowed() {
    let seed = "https://site.example/".to_string();
    let mut c = Crawler::new(seed.clone(), config(1, 10));
    match c.step() {
        CrawlStep::FetchPage { .. } => {
            c.on_page(String::new(), vec![], false);
        }
        _ => panic!("expected the seed fetch"),
    }
    match c.step() {
        CrawlStep::Done => {}
        _ => panic!("a failed seed leaves nothing to do"),
    }
    assert!(c.out.is_empty());
}

#[test]
fn blank_pages_are_not_collected() {
    let seed = "https://site.example/".to_string();
    let mut c = Crawler::new(seed.clone(), config(1, 10));
    match c.step() {
        CrawlStep::FetchPage { .. } => {
            c.on_page("   ".to_string(), vec![], true);
        }
        _ => panic!("expected the seed fetch"),
    }
    assert!(c.out.is_empty());
}
