use std::time::Duration;

use lci_codegraph::embed::client::{
    align_response, backoff, backoff_millis, bearer, embeddings_url, truncate_chars, AlignError,
    Outcome, RetryLoop, Step, MAX_ERROR_BODY_CHARS,
};

#[test]
fn url_trims_trailing_slashes_before_appending_the_path() {
    assert_eq!(embeddings_url("https://api.openai.com/v1"), "https://api.openai.com/v1/embeddings");
    assert_eq!(embeddings_url("https://api.openai.com/v1/"), "https://api.openai.com/v1/embeddings");
    assert_eq!(embeddings_url("http://h//"), "http://h/embeddings");
    assert_eq!(embeddings_url(""), "/embeddings");
}

#[test]
fn authorization_value_is_bearer_and_the_key() {
    assert_eq!(bearer("sekret-key"), "Bearer sekret-key");
}

#[test]
fn backoff_doubles_from_500ms_and_caps_the_exponent() {
    assert_eq!(backoff_millis(0), 500);
    assert_eq!(backoff_millis(1), 1000);
    assert_eq!(backoff_millis(3), 4000);
    assert_eq!(backoff_millis(32), 500 * (1u64 << 32));
    assert_eq!(backoff_millis(33), 500 * (1u64 << 32));
    assert_eq!(backoff_millis(u32::MAX), 500 * (1u64 << 32));
    assert_eq!(backoff(2), Duration::from_millis(2000));
}

#[test]
fn truncate_chars_cuts_on_char_boundaries() {
    assert_eq!(truncate_chars("héllo", 2), "hé");
    assert_eq!(truncate_chars("abc", 10), "abc");
    assert_eq!(truncate_chars("", 0), "");
    assert_eq!(MAX_ERROR_BODY_CHARS, 512);
}

#[test]
fn retries_429_and_5xx_and_transport_errors_while_retries_last() {
    let mut l = RetryLoop::new(2);
    assert_eq!(l.step(Outcome::Status(429)), Step::Retry(0));
    assert_eq!(l.step(Outcome::Status(503)), Step::Retry(1));
    assert_eq!(l.step(Outcome::Status(500)), Step::Fail, "retries exhausted");
    assert_eq!(l.attempt, 2);

    let mut t = RetryLoop::new(1);
    assert_eq!(t.step(Outcome::Transport), Step::Retry(0));
    assert_eq!(t.step(Outcome::Transport), Step::Fail);
}

#[test]
fn success_is_accepted_and_other_4xx_fail_at_once() {
    let mut l = RetryLoop::new(3);
    assert_eq!(l.step(Outcome::Status(200)), Step::Accept);
    assert_eq!(l.step(Outcome::Status(204)), Step::Accept);
    assert_eq!(l.step(Outcome::Status(401)), Step::Fail);
    assert_eq!(l.step(Outcome::Status(404)), Step::Fail);
    assert_eq!(l.attempt, 0, "no retry was counted");
}

#[test]
fn zero_max_retries_never_retries() {
    let mut l = RetryLoop::new(0);
    assert_eq!(l.step(Outcome::Status(429)), Step::Fail);
}

#[test]
fn in_order_reply_aligns_as_is() {
    let v = align_response(vec![(0, "a"), (1, "b")], 2).unwrap();
    assert_eq!(v, vec!["a", "b"]);
}

#[test]
fn out_of_order_reply_is_aligned_by_index() {
    let v = align_response(vec![(1, 9.0f32), (0, 1.0f32), (2, 5.0f32)], 3).unwrap();
    assert_eq!(v, vec![1.0, 9.0, 5.0]);
}

#[test]
fn short_reply_is_a_count_mismatch() {
    let err = align_response(vec![(0, 0u8)], 2).unwrap_err();
    assert_eq!(err, AlignError::CountMismatch { returned: 1, expected: 2 });
    let msg = err.message();
    assert!(msg.contains('1') && msg.contains('2'), "{msg}");
}

#[test]
fn duplicated_or_out_of_range_indices_are_not_a_permutation() {
    let dup = align_response(vec![(0, 1u8), (0, 9u8)], 2).unwrap_err();
    assert_eq!(dup, AlignError::NotPermutation { expected: 2 });
    assert!(dup.message().contains("permutation"));
    let out_of_range = align_response(vec![(0, 1u8), (2, 9u8)], 2).unwrap_err();
    assert_eq!(out_of_range, AlignError::NotPermutation { expected: 2 });
}

#[test]
fn empty_reply_for_no_inputs_aligns_to_nothing() {
    let v: Vec<u8> = align_response(Vec::new(), 0).unwrap();
    assert!(v.is_empty());
}
