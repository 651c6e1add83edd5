use kafcars::client::KafkaClient;
use kafcars::client::broker::BrokerConnection;
use kafcars::client::broker_visit_order;
use kafcars::protocol::metadata::MetadataRequest;

#[test]
fn builder_starts_with_defaults() {
    let b = KafkaClient::new(vec![String::from("a:9092"), String::from("b:9092")]);
    assert_eq!(b.brokers, vec![String::from("a:9092"), String::from("b:9092")]);
    assert!(b.client_id.is_none());
    assert_eq!(b.max_message_size, 100 * 1024 * 1024);
}

#[test]
fn broker_description_keeps_its_fields() {
    let b = BrokerConnection::describe(String::from("a:9092"), Some(String::from("me")));
    assert_eq!(b.broker, "a:9092");
    assert_eq!(b.client_id, Some(String::from("me")));
}

#[test]
fn visit_order_is_a_permutation() {
    for n in [0usize, 1, 2, 7, 32] {
        let order = broker_visit_order(n);
        assert_eq!(order.len(), n);
        let mut sorted = order.clone();
        sorted.sort();
        let expected: Vec<usize> = (0..n).collect();
        assert_eq!(sorted, expected);
    }
}

#[test]
fn metadata_request_names_each_topic() {
    let req = MetadataRequest::for_topics(vec![String::from("t1"), String::from("t2")]);
    assert!(req.allow_auto_topic_creation.is_none());
    let names: Vec<&str> = req.topics.iter().map(|t| t.name.as_str()).collect();
    assert_eq!(names, vec!["t1", "t2"]);
}
