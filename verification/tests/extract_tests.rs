use site_qa::extract::{classify_upload, extract_text_and_links, UploadKind};

#[test]
fn text_and_links_come_from_the_document() {
    let html = "<html><body><p>Hello  world</p>\
                <a href=\"/x#f\">x</a><a href=\"https://other.example/y\">y</a></body></html>";
    let (text, links) = extract_text_and_links("https://site.example/", html);
    assert_eq!(text, "Hello world x y");
    assert_eq!(
        links,
        vec![
            "https://site.example/x#f".to_string(),
            "https://other.example/y".to_string(),
        ]
    );
}

#[test]
fn main_element_takes_priority_over_body() {
    let html = "<html><body><main><p>Core</p></main><p>Rest</p></body></html>";
    let (text, _) = extract_text_and_links("https://site.example/", html);
    assert_eq!(text, "Core");
}

#[test]
fn unjoinable_links_are_dropped() {
    let html = "<html><body><a href=\"https://ok.example/a\">a</a>\
                <a href=\"http://[bad\">b</a></body></html>";
    let (_, links) = extract_text_and_links("https://site.example/", html);
    assert_eq!(links, vec!["https://ok.example/a".to_string()]);
}

#[test]
fn uploads_route_by_extension() {
    assert_eq!(classify_upload("pdf"), UploadKind::Pdf);
    assert_eq!(classify_upload("PDF"), UploadKind::Pdf);
    assert_eq!(classify_upload("txt"), UploadKind::Plain);
    assert_eq!(classify_upload("md"), UploadKind::Plain);
    assert_eq!(classify_upload("html"), UploadKind::Html);
    assert_eq!(classify_upload("Htm"), UploadKind::Html);
    assert_eq!(classify_upload("docx"), UploadKind::Converter);
    assert_eq!(classify_upload("pptx"), UploadKind::Converter);
    assert_eq!(classify_upload("odt"), UploadKind::Converter);
    assert_eq!(classify_upload("xyz"), UploadKind::Other);
    assert_eq!(classify_upload(""), UploadKind::Other);
}
