use pipegen::ware::kafka::{KafkaClientConfig, KafkaConsumerClientConfig};
use pipegen::ware::kube::{KubeLog, KubeLogBuilder};
use pipegen::ware::mqtt::{ClientOptions, Credentials, LastWill, QoSType};

fn pairs(v: &[(&str, &str)]) -> Vec<(String, String)> {
    v.iter().map(|(k, x)| (k.to_string(), x.to_string())).collect()
}

#[test]
fn kube_log_group_joins_names() {
    let log = KubeLog {
        namespace: "default".to_string(),
        pod: "web-1".to_string(),
        container: "nginx".to_string(),
        log: "GET /".to_string(),
    };
    assert_eq!(log.group(), "default/web-1/nginx");
}

#[test]
fn kube_log_builder_sets_every_part() {
    let log = KubeLogBuilder::new()
        .namespace("ns".to_string())
        .pod("p".to_string())
        .container("c".to_string())
        .log("line".to_string())
        .build();
    assert_eq!(log.namespace, "ns");
    assert_eq!(log.pod, "p");
    assert_eq!(log.container, "c");
    assert_eq!(log.log, "line");
    assert_eq!(log.group(), "ns/p/c");
}

#[test]
fn kube_log_builder_starts_empty() {
    let b = KubeLogBuilder::new();
    assert!(b.namespace.is_none() && b.pod.is_none() && b.container.is_none() && b.log.is_none());
    let b = b.pod("p".to_string());
    assert_eq!(b.pod.as_deref(), Some("p"));
    assert!(b.namespace.is_none());
}

#[test]
fn kafka_client_params() {
    let c = KafkaClientConfig { bootstrap_servers: "localhost:9092".to_string() };
    assert_eq!(c.into_params(), pairs(&[("bootstrap.servers", "localhost:9092")]));
}

#[test]
fn kafka_consumer_params_all_given() {
    let c = KafkaConsumerClientConfig {
        group_id: Some("g1".to_string()),
        enable_partition_eof: Some(false),
        session_timeout_ms: Some(6000),
        enable_auto_commit: Some(true),
        topics: vec!["a".to_string(), "b".to_string()],
    };
    assert_eq!(c.get_topics(), vec!["a", "b"]);
    assert_eq!(
        c.into_params(),
        pairs(&[
            ("group.id", "g1"),
            ("enable.partition.eof", "false"),
            ("session.timeout.ms", "6000"),
            ("enable.auto.commit", "true"),
        ])
    );
}

#[test]
fn kafka_consumer_params_only_given_ones() {
    let c = KafkaConsumerClientConfig {
        group_id: None,
        enable_partition_eof: None,
        session_timeout_ms: Some(0),
        enable_auto_commit: None,
        topics: vec![],
    };
    assert!(c.get_topics().is_empty());
    assert_eq!(c.into_params(), pairs(&[("session.timeout.ms", "0")]));
}

#[test]
fn mqtt_options_hold_values() {
    let o = ClientOptions {
        id: "c1".to_string(),
        host: "localhost".to_string(),
        port: 1883,
        cap: 10,
        keep_alive: 5,
        credentials: Some(Credentials { username: "u".to_string(), password: "p".to_string() }),
        last_will: Some(LastWill {
            topic: "t".to_string(),
            message: "bye".to_string(),
            qos: QoSType::AtLeast,
            retain: false,
        }),
    };
    assert_eq!(o.last_will.unwrap().qos, QoSType::AtLeast);
    assert_eq!(o.port, 1883);
}
