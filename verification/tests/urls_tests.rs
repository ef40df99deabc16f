use site_qa::urls::{before_path, join_url, looks_like_pdf, same_origin, sanitize_url,
    strip_url_fragment, UrlError};

#[test]
fn fragments_are_stripped() {
    assert_eq!(strip_url_fragment("https://a.com/x?q=1#top"), "https://a.com/x?q=1");
    assert_eq!(strip_url_fragment("https://a.com/x"), "https://a.com/x");
    assert_eq!(strip_url_fragment("#only"), "");
}

#[test]
fn pdf_links_are_recognized() {
    assert!(looks_like_pdf("https://a.com/file.PDF"));
    assert!(looks_like_pdf("https://a.com/file.pdf?dl=1"));
    assert!(!looks_like_pdf("https://a.com/file.pdfx"));
    assert!(!looks_like_pdf("https://a.com/page.html"));
}

#[test]
fn sanitize_accepts_and_normalizes() {
    assert_eq!(sanitize_url("https://example.com"), Ok("https://example.com/".to_string()));
    assert_eq!(sanitize_url("  www.example.com  "), Ok("https://www.example.com/".to_string()));
    assert_eq!(sanitize_url("//cdn.example.com/x"), Ok("https://cdn.example.com/x".to_string()));
    assert_eq!(sanitize_url("<https://a.com/x>"), Ok("https://a.com/x".to_string()));
    assert_eq!(sanitize_url("example.org/path"), Ok("https://example.org/path".to_string()));
}

#[test]
fn sanitize_takes_the_first_token() {
    assert_eq!(
        sanitize_url("https://a.com/x and some words"),
        Ok("https://a.com/x".to_string())
    );
}

#[test]
fn sanitize_rejects_empty_input() {
    assert_eq!(sanitize_url(""), Err(UrlError::EmptyInput));
    assert_eq!(sanitize_url("   \t "), Err(UrlError::EmptyInput));
}

#[test]
fn sanitize_rejects_unparseable_input() {
    // After cleanup this becomes `https://###`, which has no host.
    assert_eq!(sanitize_url("###"), Err(UrlError::ParseFailed));
}

#[test]
fn origins_compare_by_scheme_host_and_port() {
    assert!(same_origin("https://a.com/x", "https://a.com/y?q=2"));
    assert!(!same_origin("https://a.com/x", "https://b.com/x"));
    assert!(!same_origin("https://a.com/x", "http://a.com/x"));
    assert!(!same_origin("not a url", "https://a.com/"));
}

#[test]
fn links_join_against_their_base() {
    assert_eq!(
        join_url("https://a.com/dir/page", "sub/x"),
        Some("https://a.com/dir/sub/x".to_string())
    );
    assert_eq!(
        join_url("https://a.com/dir/", "/rooted"),
        Some("https://a.com/rooted".to_string())
    );
    assert_eq!(join_url("not a url", "x"), None);
}

#[test]
fn before_path_is_scheme_and_host() {
    assert_eq!(before_path("https://a.com/x?q=1"), Some("https://a.com".to_string()));
    assert_eq!(before_path("nonsense"), None);
}
