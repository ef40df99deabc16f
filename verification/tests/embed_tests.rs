use site_qa::embed::{is_context_length_error, EmbedRetry};
use site_qa::text::clamp_to;

#[test]
fn context_errors_are_recognized() {
    assert!(is_context_length_error("input exceeds the context length of the model"));
    assert!(is_context_length_error("Prompt Too Long"));
    assert!(is_context_length_error("context length overflow"));
    assert!(!is_context_length_error("connection refused"));
    assert!(!is_context_length_error(""));
}

#[test]
fn shrink_ladder_follows_the_budgets() {
    let text: String = "word ".repeat(200);
    let mut r = EmbedRetry::new(text.clone(), 600, 2048);
    assert_eq!(r.attempt_text, clamp_to(&text, 600));
    assert_eq!(r.num_ctx, 2048);

    assert!(r.on_context_length_failure());
    assert_eq!(r.attempt_text, clamp_to(&text, 256));
    assert_eq!(r.num_ctx, 1024);

    assert!(r.on_context_length_failure());
    assert_eq!(r.attempt_text, clamp_to(&text, 192));

    assert!(r.on_context_length_failure());
    assert_eq!(r.attempt_text, clamp_to(&text, 160));

    assert!(r.on_context_length_failure());
    assert_eq!(r.attempt_text, clamp_to(&text, 120));

    // The fifth failure is terminal: nothing changes.
    assert!(!r.on_context_length_failure());
    assert_eq!(r.attempt_text, clamp_to(&text, 120));
    assert_eq!(r.shrinks, 4);
}

#[test]
fn budgets_shrink_the_attempt() {
    let text: String = "word ".repeat(200);
    let mut r = EmbedRetry::new(text.clone(), 600, 2048);
    let mut prev = r.attempt_text.chars().count();
    while r.on_context_length_failure() {
        let now = r.attempt_text.chars().count();
        assert!(now <= prev);
        assert!(now < 256);
        prev = now;
    }
}

#[test]
fn small_context_hint_is_kept() {
    let mut r = EmbedRetry::new("some text".to_string(), 600, 512);
    assert!(r.on_context_length_failure());
    assert_eq!(r.num_ctx, 512);
}
