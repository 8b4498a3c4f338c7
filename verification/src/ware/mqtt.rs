//! Options of an MQTT client.
use vstd::prelude::*;

verus! {

/// How often a message may be delivered.
#[derive(Clone, Copy, Debug, PartialEq, Eq)]
pub enum QoSType {
    /// At most once.
    AtMost,
    /// At least once.
    AtLeast,
    /// Exactly once.
    Exactly,
}

/// A user name and password for the broker.
#[derive(Clone, Debug)]
pub struct Credentials {
    pub username: String,
    pub password: String,
}

/// The message the broker publishes when the client goes away.
#[derive(Clone, Debug)]
pub struct LastWill {
    pub topic: String,
    pub message: String,
    pub qos: QoSType,
    pub retain: bool,
}

/// How a client connects to its broker.
#[derive(Clone, Debug)]
pub struct ClientOptions {
    pub id: String,
    pub host: String,
    pub port: u16,
    /// The capacity of the client's request queue.
    pub cap: usize,
    /// Seconds of silence after which the client pings the broker.
    pub keep_alive: u16,
    pub credentials: Option<Credentials>,
    pub last_will: Option<LastWill>,
}

} // verus!
