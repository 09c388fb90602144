use subscription_registry::errors::RegistryError;
use subscription_registry::registry::SubscriptionRegistry;

#[test]
fn subscribe_returns_the_pair() {
    let mut reg = SubscriptionRegistry::new();
    let sub = reg.subscribe("book", "http://a.example/cb").unwrap();
    assert_eq!(sub.product_type, "book");
    assert_eq!(sub.url, "http://a.example/cb");
}

#[test]
fn subscribe_twice_yields_one_entry() {
    let mut reg = SubscriptionRegistry::new();
    reg.subscribe("book", "http://a.example/cb").unwrap();
    reg.subscribe("book", "http://a.example/cb").unwrap();
    let urls = reg.subscribers("book");
    assert_eq!(urls.len(), 1);
    assert_eq!(urls[0], "http://a.example/cb");
}

#[test]
fn subscribe_rejects_empty_product_type() {
    let mut reg = SubscriptionRegistry::new();
    let r = reg.subscribe("", "http://a.example/cb");
    assert_eq!(r.unwrap_err(), RegistryError::InvalidInput);
    assert_eq!(reg.subscribers("").len(), 0);
}

#[test]
fn subscribe_rejects_malformed_url() {
    let mut reg = SubscriptionRegistry::new();
    let r = reg.subscribe("book", "not a url");
    assert_eq!(r.unwrap_err(), RegistryError::InvalidInput);
    assert_eq!(reg.subscribers("book").len(), 0);
}

#[test]
fn unsubscribe_missing_pair_is_not_found() {
    let mut reg = SubscriptionRegistry::new();
    let r = reg.unsubscribe("book", "http://a.example/cb");
    assert_eq!(r.unwrap_err(), RegistryError::NotFound);
}

#[test]
fn unsubscribe_wrong_topic_is_not_found() {
    let mut reg = SubscriptionRegistry::new();
    reg.subscribe("book", "http://a.example/cb").unwrap();
    let r = reg.unsubscribe("food", "http://a.example/cb");
    assert_eq!(r.unwrap_err(), RegistryError::NotFound);
    assert_eq!(reg.subscribers("book").len(), 1);
}

#[test]
fn unsubscribe_removes_only_the_pair() {
    let mut reg = SubscriptionRegistry::new();
    reg.subscribe("book", "http://a.example/cb").unwrap();
    reg.subscribe("book", "http://b.example/cb").unwrap();
    reg.subscribe("food", "http://a.example/cb").unwrap();
    reg.unsubscribe("book", "http://a.example/cb").unwrap();
    let books = reg.subscribers("book");
    assert_eq!(books, vec!["http://b.example/cb".to_string()]);
    let foods = reg.subscribers("food");
    assert_eq!(foods, vec!["http://a.example/cb".to_string()]);
    let r = reg.unsubscribe("book", "http://a.example/cb");
    assert_eq!(r.unwrap_err(), RegistryError::NotFound);
}

#[test]
fn subscribers_keep_insertion_order() {
    let mut reg = SubscriptionRegistry::new();
    reg.subscribe("book", "http://a.example/cb").unwrap();
    reg.subscribe("book", "http://b.example/cb").unwrap();
    reg.subscribe("book", "http://c.example/cb").unwrap();
    let urls = reg.subscribers("book");
    assert_eq!(
        urls,
        vec![
            "http://a.example/cb".to_string(),
            "http://b.example/cb".to_string(),
            "http://c.example/cb".to_string(),
        ]
    );
}
