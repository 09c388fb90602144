use subscription_registry::delivery::DeliveryReport;
use subscription_registry::delivery::Publication;
use subscription_registry::registry::SubscriptionRegistry;

// Drives a publish to completion, failing the targets for which `fails`
// returns a reason.
fn run_publish(mut publication: Publication, fails: impl Fn(&str) -> Option<&'static str>) -> DeliveryReport {
    loop {
        match publication.next_target() {
            Some(url) => match fails(&url) {
                Some(reason) => publication.record_failed(reason),
                None => publication.record_delivered(),
            },
            None => break,
        }
    }
    publication.into_report()
}

#[test]
fn publish_to_empty_topic_reports_empty_success() {
    let reg = SubscriptionRegistry::new();
    let publication = reg.begin_publish("book", "a new book arrived");
    let report = run_publish(publication, |_| None);
    assert_eq!(report.len(), 0);
    assert!(report.all_delivered());
}

#[test]
fn publish_delivers_in_subscription_order() {
    let mut reg = SubscriptionRegistry::new();
    reg.subscribe("book", "http://a.example/cb").unwrap();
    reg.subscribe("book", "http://b.example/cb").unwrap();
    reg.subscribe("book", "http://c.example/cb").unwrap();
    let publication = reg.begin_publish("book", "a new book arrived");
    assert_eq!(publication.payload_str(), "a new book arrived");
    let report = run_publish(publication, |_| None);
    assert_eq!(report.len(), 3);
    assert_eq!(report.url_at(0), "http://a.example/cb");
    assert_eq!(report.url_at(1), "http://b.example/cb");
    assert_eq!(report.url_at(2), "http://c.example/cb");
    assert!(report.all_delivered());
}

#[test]
fn one_failure_does_not_stop_the_rest() {
    let mut reg = SubscriptionRegistry::new();
    reg.subscribe("book", "http://a.example/cb").unwrap();
    reg.subscribe("book", "http://b.example/cb").unwrap();
    reg.subscribe("book", "http://c.example/cb").unwrap();
    let publication = reg.begin_publish("book", "a new book arrived");
    let report = run_publish(publication, |url| {
        if url == "http://b.example/cb" {
            Some("connection refused")
        } else {
            None
        }
    });
    assert_eq!(report.len(), 3);
    assert!(report.delivered_at(0));
    assert!(!report.delivered_at(1));
    assert!(report.delivered_at(2));
    assert_eq!(report.url_at(1), "http://b.example/cb");
    assert_eq!(report.failure_reason_at(1).unwrap(), "connection refused");
    assert!(report.failure_reason_at(0).is_none());
    assert!(!report.all_delivered());
}

#[test]
fn publish_ignores_other_topics() {
    let mut reg = SubscriptionRegistry::new();
    reg.subscribe("book", "http://a.example/cb").unwrap();
    reg.subscribe("food", "http://b.example/cb").unwrap();
    let publication = reg.begin_publish("food", "fresh stock");
    let report = run_publish(publication, |_| None);
    assert_eq!(report.len(), 1);
    assert_eq!(report.url_at(0), "http://b.example/cb");
}

#[test]
fn unsubscribed_urls_get_no_delivery() {
    let mut reg = SubscriptionRegistry::new();
    reg.subscribe("book", "http://a.example/cb").unwrap();
    reg.subscribe("book", "http://b.example/cb").unwrap();
    reg.unsubscribe("book", "http://a.example/cb").unwrap();
    let publication = reg.begin_publish("book", "a new book arrived");
    let report = run_publish(publication, |_| None);
    assert_eq!(report.len(), 1);
    assert_eq!(report.url_at(0), "http://b.example/cb");
}
