//! Kubernetes log records and their builder.
use vstd::prelude::*;

verus! {

/// One line of a container's log.
#[derive(Clone, Debug)]
pub struct KubeLog {
    pub namespace: String,
    pub pod: String,
    pub container: String,
    pub log: String,
}

/// The key under which records are grouped: three names joined by `/`.
pub open spec fn group_key(a: Seq<char>, b: Seq<char>, c: Seq<char>) -> Seq<char> {
    a + seq!['/'] + b + seq!['/'] + c
}

/// `a/b/c` as a new string.
fn join_with_slash(a: &str, b: &str, c: &str) -> (r: String)
    ensures
        r@ == group_key(a@, b@, c@),
{
    let mut r = String::from_str(a);
    crate::text::push_char(&mut r, '/');
    r.append(b);
    crate::text::push_char(&mut r, '/');
    r.append(c);
    r
}

impl KubeLog {
    /// The record's group: `namespace/pod/container`.
    pub fn group(&self) -> (r: String)
        ensures
            r@ == group_key(self.namespace@, self.pod@, self.container@),
    {
        join_with_slash(self.namespace.as_str(), self.pod.as_str(), self.container.as_str())
    }
}

/// Collects the parts of a [`KubeLog`] one at a time.
pub struct KubeLogBuilder {
    pub namespace: Option<String>,
    pub pod: Option<String>,
    pub container: Option<String>,
    pub log: Option<String>,
}

impl Default for KubeLogBuilder {
    fn default() -> (r: Self)
        ensures
            r.namespace is None,
            r.pod is None,
            r.container is None,
            r.log is None,
    {
        KubeLogBuilder { namespace: None, pod: None, container: None, log: None }
    }
}

impl KubeLogBuilder {
    /// A builder with no part set.
    pub fn new() -> (r: Self)
        ensures
            r.namespace is None,
            r.pod is None,
            r.container is None,
            r.log is None,
    {
        Self::default()
    }

    /// Sets the namespace; the other parts stay.
    pub fn namespace(self, namespace: String) -> (r: Self)
        ensures
            r.namespace == Some(namespace),
            r.pod == self.pod,
            r.container == self.container,
            r.log == self.log,
    {
        let mut b = self;
        b.namespace = Some(namespace);
        b
    }

    /// Sets the pod; the other parts stay.
    pub fn pod(self, pod: String) -> (r: Self)
        ensures
            r.namespace == self.namespace,
            r.pod == Some(pod),
            r.container == self.container,
            r.log == self.log,
    {
        let mut b = self;
        b.pod = Some(pod);
        b
    }

    /// Sets the container; the other parts stay.
    pub fn container(self, container: String) -> (r: Self)
        ensures
            r.namespace == self.namespace,
            r.pod == self.pod,
            r.container == Some(container),
            r.log == self.log,
    {
        let mut b = self;
        b.container = Some(container);
        b
    }

    /// Sets the log line; the other parts stay.
    pub fn log(self, log: String) -> (r: Self)
        ensures
            r.namespace == self.namespace,
            r.pod == self.pod,
            r.container == self.container,
            r.log == Some(log),
    {
        let mut b = self;
        b.log = Some(log);
        b
    }

    /// The record made of the four parts, each of which must have been set.
    pub fn build(self) -> (r: KubeLog)
        requires
            self.namespace is Some,
            self.pod is Some,
            self.container is Some,
            self.log is Some,
        ensures
            r.namespace == self.namespace.unwrap(),
            r.pod == self.pod.unwrap(),
            r.container == self.container.unwrap(),
            r.log == self.log.unwrap(),
    {
        KubeLog {
            namespace: self.namespace.unwrap(),
            pod: self.pod.unwrap(),
            container: self.container.unwrap(),
            log: self.log.unwrap(),
        }
    }
}

} // verus!
