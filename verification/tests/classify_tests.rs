use macarons::classify::classify;
use macarons::whitelist::{compile, match_nothing};

fn domains() -> Vec<String> {
    vec!["a.com".to_string(), "b.com".to_string(), "evil.net".to_string()]
}

#[test]
fn classification_splits_allowed_and_condemned() {
    let w = compile(&vec!["a\\.com$".to_string(), "b\\.com$".to_string()]).unwrap();
    let (allowed, condemned) = classify(&domains(), &w);
    assert_eq!(allowed, vec!["a.com".to_string(), "b.com".to_string()]);
    assert_eq!(condemned, vec!["evil.net".to_string()]);
}

#[test]
fn classification_is_a_partition() {
    let w = compile(&vec!["net$".to_string()]).unwrap();
    let input = domains();
    let (allowed, condemned) = classify(&input, &w);
    assert_eq!(allowed.len() + condemned.len(), input.len());
    for d in &input {
        let in_allowed = allowed.contains(d);
        let in_condemned = condemned.contains(d);
        assert!(in_allowed != in_condemned);
    }
    for d in allowed.iter().chain(condemned.iter()) {
        assert!(input.contains(d));
    }
}

#[test]
fn empty_whitelist_condemns_every_domain() {
    let w = match_nothing();
    let (allowed, condemned) = classify(&domains(), &w);
    assert!(allowed.is_empty());
    assert_eq!(condemned, domains());
}

#[test]
fn no_domains_classify_to_nothing() {
    let w = compile(&vec![".*".to_string()]).unwrap();
    let (allowed, condemned) = classify(&Vec::new(), &w);
    assert!(allowed.is_empty());
    assert!(condemned.is_empty());
}
