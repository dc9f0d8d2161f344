use macarons::whitelist::{compile, match_nothing};

#[test]
fn empty_whitelist_matches_nothing() {
    let w = match_nothing();
    assert!(!w.matches("a.com"));
    assert!(!w.matches("evil.net"));
    assert!(!w.matches(""));
    let compiled = compile(&Vec::new()).unwrap();
    assert!(!compiled.matches("a.com"));
    assert!(!compiled.matches(""));
}

#[test]
fn empty_match_pattern_rejects_every_domain() {
    let w = compile(&vec!["^$".to_string()]).unwrap();
    assert!(!w.matches("a.com"));
    assert!(!w.matches("evil.net"));
}

#[test]
fn patterns_match_unanchored_substrings() {
    let w = compile(&vec!["b".to_string()]).unwrap();
    assert!(w.matches("abc"));
    assert!(!w.matches("acd"));
    let anchored = compile(&vec!["^a\\.com$".to_string()]).unwrap();
    assert!(anchored.matches("a.com"));
    assert!(!anchored.matches("xa.com"));
    let suffix = compile(&vec!["a\\.com$".to_string()]).unwrap();
    assert!(suffix.matches("a.com"));
    assert!(suffix.matches("xa.com"));
    assert!(!suffix.matches("a.com.org"));
}

#[test]
fn matching_is_case_sensitive() {
    let w = compile(&vec!["A\\.com".to_string()]).unwrap();
    assert!(!w.matches("a.com"));
    assert!(w.matches("A.com"));
}

#[test]
fn any_pattern_of_the_set_may_match() {
    let w = compile(&vec!["a\\.com$".to_string(), "b\\.com$".to_string()]).unwrap();
    assert!(w.matches("a.com"));
    assert!(w.matches("b.com"));
    assert!(!w.matches("evil.net"));
}

#[test]
fn malformed_pattern_fails_the_whole_compilation() {
    let patterns = vec!["a\\.com$".to_string(), "(".to_string()];
    assert!(compile(&patterns).is_err());
}
