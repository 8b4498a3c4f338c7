//! Data and settings of the connectors that generated pipes use: Kubernetes
//! log records, Kafka client settings and MQTT client options.
pub mod kafka;
pub mod kube;
pub mod mqtt;
