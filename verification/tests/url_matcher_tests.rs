use http_pipeline::errors::HttpError;
use http_pipeline::http_request::HttpMethod;
use http_pipeline::url_matcher::{MatchMethod, UrlMatcher};

#[test]
fn new_should_not_panic() {
    assert!(UrlMatcher::new(MatchMethod::ANY, "/users/{userId}/posts/{postId}").is_ok());
    assert!(UrlMatcher::new(MatchMethod::ANY, "/users/{userId}/posts/{postId}/").is_ok());
    assert!(UrlMatcher::new(MatchMethod::ANY, "/users/posts/").is_ok());
    assert!(UrlMatcher::new(MatchMethod::ANY, "/users/posts").is_ok());
    assert!(UrlMatcher::new(MatchMethod::ANY, "/users/{userId}/posts/{postId*}").is_ok());
    assert!(UrlMatcher::new(MatchMethod::ANY, "/users/{userId}/posts/{postId*}/").is_ok());
    assert!(UrlMatcher::new(MatchMethod::ANY, "/").is_ok());
}

#[test]
fn new_should_panic_on_invalid_pattern() {
    let r = UrlMatcher::new(MatchMethod::ANY, "users/{userId");
    assert!(matches!(r, Err(HttpError::InvalidPattern)));
}

#[test]
fn match_url_should_work() {
    let matcher = UrlMatcher::new(
        MatchMethod::from_method(HttpMethod::GET),
        "/users/{userId}/posts/{postId}",
    )
    .unwrap();
    let (matched, params) = matcher.match_url(&HttpMethod::GET, "/users/123/posts/456");
    assert!(matched);
    assert_eq!(params.get("userId").unwrap().as_str(), "123");
    assert_eq!(params.get("postId").unwrap().as_str(), "456");
}

#[test]
fn match_url_should_work_wildcard() {
    let matcher =
        UrlMatcher::new(MatchMethod::from_method(HttpMethod::GET), "/users/{wildcard*}").unwrap();
    let (matched, params) = matcher.match_url(&HttpMethod::GET, "/users/123/posts/456");
    assert!(matched);
    assert_eq!(params.get("wildcard").unwrap().as_str(), "123/posts/456");
}

#[test]
fn match_url_should_work_ending_slash() {
    let matcher = UrlMatcher::new(MatchMethod::from_method(HttpMethod::GET), "/users/").unwrap();
    let (matched, params) = matcher.match_url(&HttpMethod::GET, "/users/");
    assert!(matched);
    assert_eq!(params.len(), 0);
}

#[test]
fn trailing_slash_is_significant() {
    let matcher = UrlMatcher::new(MatchMethod::from_method(HttpMethod::GET), "/users/").unwrap();
    let (matched, _) = matcher.match_url(&HttpMethod::GET, "/users");
    assert!(!matched);
    let reverse = UrlMatcher::new(MatchMethod::from_method(HttpMethod::GET), "/users").unwrap();
    let (matched2, _) = reverse.match_url(&HttpMethod::GET, "/users/");
    assert!(!matched2);
}

#[test]
fn method_filter_is_checked_before_structure() {
    let matcher = UrlMatcher::new(MatchMethod::from_method(HttpMethod::POST), "/users").unwrap();
    let (matched, _) = matcher.match_url(&HttpMethod::GET, "/users");
    assert!(!matched);
    let (matched2, _) = matcher.match_url(&HttpMethod::POST, "/users");
    assert!(matched2);
    assert!(MatchMethod::ANY.matches(&HttpMethod::DELETE));
}

#[test]
fn literal_mismatch_does_not_match() {
    let matcher =
        UrlMatcher::new(MatchMethod::ANY, "/users/{userId}/posts/{postId}").unwrap();
    let (matched, _) = matcher.match_url(&HttpMethod::GET, "/users/123/comments/456");
    assert!(!matched);
    let (matched2, _) = matcher.match_url(&HttpMethod::GET, "/users/123/posts");
    assert!(!matched2);
}

#[test]
fn wildcard_binds_empty_tail() {
    let matcher = UrlMatcher::new(MatchMethod::ANY, "/files/{rest*}").unwrap();
    let (matched, params) = matcher.match_url(&HttpMethod::GET, "/files/");
    assert!(matched);
    assert_eq!(params.get("rest").unwrap().as_str(), "");
}

#[test]
fn non_ascii_word_characters_are_accepted() {
    let matcher = UrlMatcher::new(MatchMethod::ANY, "/caf\u{e9}/{ma\u{df}}").unwrap();
    let (matched, params) = matcher.match_url(&HttpMethod::GET, "/caf\u{e9}/gro\u{df}");
    assert!(matched);
    assert_eq!(params.get("ma\u{df}").unwrap().as_str(), "gro\u{df}");
    let (miss, _) = matcher.match_url(&HttpMethod::GET, "/cafe/x");
    assert!(!miss);
}
