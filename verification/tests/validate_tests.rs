use subscription_registry::validate::is_valid_product_type;
use subscription_registry::validate::is_valid_url;

#[test]
fn product_type_must_be_non_empty() {
    assert!(!is_valid_product_type(""));
    assert!(is_valid_product_type("book"));
}

#[test]
fn url_needs_scheme_separator_and_rest() {
    assert!(is_valid_url("http://a.example/cb"));
    assert!(is_valid_url("https://a.example/cb"));
    assert!(is_valid_url("x://y"));
    // No separator at all.
    assert!(!is_valid_url("not a url"));
    assert!(!is_valid_url(""));
    // Separator but nothing after it.
    assert!(!is_valid_url("http://"));
    // Separator but no scheme before it.
    assert!(!is_valid_url("://a.example"));
}
