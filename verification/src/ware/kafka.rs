//! Kafka client settings, turned into the `name = value` properties that the
//! Kafka client library reads.
use crate::text::{bool_to_string, decimal, u64_to_string};
use vstd::prelude::*;

verus! {

/// The property naming the brokers to connect to first.
pub const BOOTSTRAP_SERVERS: &'static str = "bootstrap.servers";

/// The property naming a consumer's group.
pub const GROUP_ID: &'static str = "group.id";

/// The property asking for an event at the end of each partition.
pub const ENABLE_PARTITION_EOF: &'static str = "enable.partition.eof";

/// The property bounding a consumer's session, in milliseconds.
pub const SESSION_TIMEOUT_MS: &'static str = "session.timeout.ms";

/// The property letting the consumer commit offsets by itself.
pub const ENABLE_AUTO_COMMIT: &'static str = "enable.auto.commit";

/// Properties as pairs of texts.
pub open spec fn pair_views(v: Seq<(String, String)>) -> Seq<(Seq<char>, Seq<char>)> {
    v.map_values(|p: (String, String)| (p.0@, p.1@))
}

/// The one property `key = value` when a value is given, else none.
pub open spec fn opt_param(key: Seq<char>, value: Option<Seq<char>>) -> Seq<(Seq<char>, Seq<char>)> {
    match value {
        Some(v) => seq![(key, v)],
        None => Seq::empty(),
    }
}

/// How a flag is written in a property.
pub open spec fn flag_text(b: bool) -> Seq<char> {
    if b {
        "true"@
    } else {
        "false"@
    }
}

/// Settings that every Kafka client needs.
#[derive(Clone, Debug)]
pub struct KafkaClientConfig {
    pub bootstrap_servers: String,
}

impl KafkaClientConfig {
    /// The client's properties: the bootstrap servers.
    pub fn into_params(self) -> (r: Vec<(String, String)>)
        ensures
            pair_views(r@) == seq![(BOOTSTRAP_SERVERS@, self.bootstrap_servers@)],
    {
        let mut params: Vec<(String, String)> = Vec::new();
        params.push((String::from_str(BOOTSTRAP_SERVERS), self.bootstrap_servers));
        proof {
            assert(pair_views(params@) =~= seq![(BOOTSTRAP_SERVERS@, self.bootstrap_servers@)]);
        }
        params
    }
}

/// Settings of a Kafka consumer.
#[derive(Clone, Debug)]
pub struct KafkaConsumerClientConfig {
    pub group_id: Option<String>,
    pub enable_partition_eof: Option<bool>,
    pub session_timeout_ms: Option<u32>,
    pub enable_auto_commit: Option<bool>,
    pub topics: Vec<String>,
}

/// The properties of a consumer: one for each setting that is given, in the
/// order group id, end-of-partition events, session timeout, auto commit.
pub open spec fn consumer_params(c: KafkaConsumerClientConfig) -> Seq<(Seq<char>, Seq<char>)> {
    opt_param(
        GROUP_ID@,
        match c.group_id {
            Some(g) => Some(g@),
            None => None,
        },
    ) + opt_param(
        ENABLE_PARTITION_EOF@,
        match c.enable_partition_eof {
            Some(b) => Some(flag_text(b)),
            None => None,
        },
    ) + opt_param(
        SESSION_TIMEOUT_MS@,
        match c.session_timeout_ms {
            Some(ms) => Some(decimal(ms as nat)),
            None => None,
        },
    ) + opt_param(
        ENABLE_AUTO_COMMIT@,
        match c.enable_auto_commit {
            Some(b) => Some(flag_text(b)),
            None => None,
        },
    )
}

/// The values of the properties named `key`, in order.
pub open spec fn values_of(ps: Seq<(Seq<char>, Seq<char>)>, key: Seq<char>) -> Seq<Seq<char>>
    decreases ps.len(),
{
    if ps.len() == 0 {
        Seq::empty()
    } else if ps.last().0 == key {
        values_of(ps.drop_last(), key).push(ps.last().1)
    } else {
        values_of(ps.drop_last(), key)
    }
}

proof fn lemma_values_of_concat(a: Seq<(Seq<char>, Seq<char>)>, b: Seq<(Seq<char>, Seq<char>)>, key: Seq<char>)
    ensures
        values_of(a + b, key) == values_of(a, key) + values_of(b, key),
    decreases b.len(),
{
    if b.len() == 0 {
        assert(a + b =~= a);
        assert(values_of(b, key) =~= Seq::<Seq<char>>::empty());
        assert(values_of(a, key) + values_of(b, key) =~= values_of(a, key));
    } else {
        lemma_values_of_concat(a, b.drop_last(), key);
        assert((a + b).drop_last() =~= a + b.drop_last());
        assert((a + b).last() == b.last());
        if b.last().0 == key {
            assert(values_of(a, key) + values_of(b, key) =~= (values_of(a, key) + values_of(b.drop_last(), key)).push(b.last().1));
        }
    }
}

proof fn lemma_values_of_opt(key: Seq<char>, other: Seq<char>, value: Option<Seq<char>>)
    ensures
        values_of(opt_param(key, value), key) == match value {
            Some(v) => seq![v],
            None => Seq::<Seq<char>>::empty(),
        },
        key != other ==> values_of(opt_param(key, value), other) == Seq::<Seq<char>>::empty(),
{
    let ps = opt_param(key, value);
    if value is Some {
        let e = ps.drop_last();
        assert(e =~= Seq::<(Seq<char>, Seq<char>)>::empty());
        assert(values_of(e, key) == Seq::<Seq<char>>::empty());
        assert(values_of(e, other) == Seq::<Seq<char>>::empty());
        assert(ps.last() == (key, value.unwrap()));
        assert(values_of(ps, key) =~= seq![value.unwrap()]);
    } else {
        assert(ps.len() == 0);
    }
}

/// A consumer's properties carry each given setting once, under its own
/// name: the group id as given, the end-of-partition and auto-commit flags as
/// `true` or `false`, the session timeout in decimal; a setting that is not
/// given yields no property of its name.
pub proof fn lemma_consumer_params(c: KafkaConsumerClientConfig)
    ensures
        values_of(consumer_params(c), "group.id"@) == match c.group_id {
            Some(g) => seq![g@],
            None => Seq::<Seq<char>>::empty(),
        },
        values_of(consumer_params(c), "enable.partition.eof"@) == match c.enable_partition_eof {
            Some(b) => seq![if b { "true"@ } else { "false"@ }],
            None => Seq::<Seq<char>>::empty(),
        },
        values_of(consumer_params(c), "session.timeout.ms"@) == match c.session_timeout_ms {
            Some(ms) => seq![decimal(ms as nat)],
            None => Seq::<Seq<char>>::empty(),
        },
        values_of(consumer_params(c), "enable.auto.commit"@) == match c.enable_auto_commit {
            Some(b) => seq![if b { "true"@ } else { "false"@ }],
            None => Seq::<Seq<char>>::empty(),
        },
{
    reveal_strlit("group.id");
    reveal_strlit("enable.partition.eof");
    reveal_strlit("session.timeout.ms");
    reveal_strlit("enable.auto.commit");
    let k1 = GROUP_ID@;
    let k2 = ENABLE_PARTITION_EOF@;
    let k3 = SESSION_TIMEOUT_MS@;
    let k4 = ENABLE_AUTO_COMMIT@;
    assert(k1.len() != k2.len() && k1.len() != k3.len() && k1.len() != k4.len());
    assert(k2.len() != k3.len());
    assert(k2[7] != k4[7]);
    assert(k3[0] != k4[0]);
    let v1 = match c.group_id {
        Some(g) => Some(g@),
        None => None,
    };
    let v2 = match c.enable_partition_eof {
        Some(b) => Some(flag_text(b)),
        None => None,
    };
    let v3 = match c.session_timeout_ms {
        Some(ms) => Some(decimal(ms as nat)),
        None => None,
    };
    let v4 = match c.enable_auto_commit {
        Some(b) => Some(flag_text(b)),
        None => None,
    };
    let p1 = opt_param(k1, v1);
    let p2 = opt_param(k2, v2);
    let p3 = opt_param(k3, v3);
    let p4 = opt_param(k4, v4);
    assert(consumer_params(c) == p1 + p2 + p3 + p4);
    let ks = seq![k1, k2, k3, k4];
    assert forall|i: int| 0 <= i < 4 implies values_of(consumer_params(c), #[trigger] ks[i])
        == values_of(p1, ks[i]) + values_of(p2, ks[i]) + values_of(p3, ks[i]) + values_of(p4, ks[i]) by {
        lemma_values_of_concat(p1 + p2 + p3, p4, ks[i]);
        lemma_values_of_concat(p1 + p2, p3, ks[i]);
        lemma_values_of_concat(p1, p2, ks[i]);
    }
    lemma_values_of_opt(k1, k2, v1);
    lemma_values_of_opt(k1, k3, v1);
    lemma_values_of_opt(k1, k4, v1);
    lemma_values_of_opt(k2, k1, v2);
    lemma_values_of_opt(k2, k3, v2);
    lemma_values_of_opt(k2, k4, v2);
    lemma_values_of_opt(k3, k1, v3);
    lemma_values_of_opt(k3, k2, v3);
    lemma_values_of_opt(k3, k4, v3);
    lemma_values_of_opt(k4, k1, v4);
    lemma_values_of_opt(k4, k2, v4);
    lemma_values_of_opt(k4, k3, v4);
    assert(ks[0] == k1 && ks[1] == k2 && ks[2] == k3 && ks[3] == k4);
    assert(values_of(consumer_params(c), k1) =~= values_of(p1, k1));
    assert(values_of(consumer_params(c), k2) =~= values_of(p2, k2));
    assert(values_of(consumer_params(c), k3) =~= values_of(p3, k3));
    assert(values_of(consumer_params(c), k4) =~= values_of(p4, k4));
}

/// Appends `key = value` to `params`.
fn push_param(params: &mut Vec<(String, String)>, key: &str, value: String)
    ensures
        pair_views(final(params)@) == pair_views(old(params)@).push((key@, value@)),
{
    let ghost before = params@;
    params.push((String::from_str(key), value));
    proof {
        assert(pair_views(params@) =~= pair_views(before).push((key@, value@)));
    }
}

impl KafkaConsumerClientConfig {
    /// The topics to subscribe to, in order.
    pub fn get_topics(&self) -> (r: Vec<&str>)
        ensures
            r.len() == self.topics.len(),
            forall|i: int| 0 <= i < r.len() ==> #[trigger] r[i]@ == self.topics[i]@,
    {
        let mut r: Vec<&str> = Vec::new();
        let mut i: usize = 0;
        while i < self.topics.len()
            invariant
                i <= self.topics.len(),
                r.len() == i,
                forall|j: int| 0 <= j < i ==> #[trigger] r[j]@ == self.topics[j]@,
            decreases self.topics.len() - i,
        {
            r.push(self.topics[i].as_str());
            i = i + 1;
        }
        r
    }

    /// The consumer's properties, see [`consumer_params`].
    pub fn into_params(self) -> (r: Vec<(String, String)>)
        ensures
            pair_views(r@) == consumer_params(self),
    {
        let mut params: Vec<(String, String)> = Vec::new();
        let ghost p0 = pair_views(params@);
        match self.group_id {
            Some(g) => push_param(&mut params, GROUP_ID, g),
            None => {},
        }
        let ghost p1 = pair_views(params@);
        match self.enable_partition_eof {
            Some(b) => push_param(&mut params, ENABLE_PARTITION_EOF, bool_to_string(b)),
            None => {},
        }
        let ghost p2 = pair_views(params@);
        match self.session_timeout_ms {
            Some(ms) => push_param(&mut params, SESSION_TIMEOUT_MS, u64_to_string(ms as u64)),
            None => {},
        }
        let ghost p3 = pair_views(params@);
        match self.enable_auto_commit {
            Some(b) => push_param(&mut params, ENABLE_AUTO_COMMIT, bool_to_string(b)),
            None => {},
        }
        proof {
            reveal_strlit("true");
            reveal_strlit("false");
            assert(p0 =~= Seq::<(Seq<char>, Seq<char>)>::empty());
            assert(pair_views(params@) =~= consumer_params(self));
        }
        params
    }
}

} // verus!
