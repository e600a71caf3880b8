//! Outbound connector configuration.
//!
//! A `Connector` holds everything one outbound connection needs decided
//! before any socket exists: the timeout, the optional client TLS, and the
//! balancer's failure and admission parameters. A `ConnectorFactory`
//! resolves a connector for a destination name, either globally or by
//! folding every prefix-matching partial configuration in order.

use vstd::prelude::*;
use crate::config::TlsClientConfig;
use crate::config::DEFAULT_MAX_WAITERS;

verus! {

/// A hierarchical destination name: an ordered sequence of labels.
#[derive(Debug)]
pub struct Path {
    pub labels: Vec<String>,
}

/// The labels of a path, as sequences of characters.
pub open spec fn path_view(p: Path) -> Seq<Seq<char>> {
    p.labels.deep_view()
}

/// Whether `p` is a label-for-label prefix of `s`.
pub open spec fn is_prefix(p: Seq<Seq<char>>, s: Seq<Seq<char>>) -> bool {
    &&& p.len() <= s.len()
    &&& forall|i: int| 0 <= i < p.len() ==> p[i] == s[i]
}

impl Path {
    pub fn new(labels: Vec<String>) -> (r: Path)
        ensures
            path_view(r) == labels.deep_view(),
    {
        Path { labels }
    }

    /// Whether this name starts with every label of `prefix`, in order.
    pub fn starts_with(&self, prefix: &Path) -> (r: bool)
        ensures
            r == is_prefix(path_view(*prefix), path_view(*self)),
    {
        let np = prefix.labels.len();
        if np > self.labels.len() {
            return false;
        }
        let mut i: usize = 0;
        while i < np
            invariant
                0 <= i <= np,
                np == prefix.labels@.len(),
                np <= self.labels@.len(),
                forall|j: int| 0 <= j < i
                    ==> path_view(*prefix)[j] == path_view(*self)[j],
            decreases np - i,
        {
            if !(self.labels[i] == prefix.labels[i]) {
                proof {
                    assert(path_view(*prefix)[i as int] == prefix.labels@[i as int]@);
                    assert(path_view(*self)[i as int] == self.labels@[i as int]@);
                }
                return false;
            }
            proof {
                assert(path_view(*prefix)[i as int] == prefix.labels@[i as int]@);
                assert(path_view(*self)[i as int] == self.labels@[i as int]@);
            }
            i = i + 1;
        }
        true
    }
}

/// The value of a client TLS setting: the name and the trust anchor paths.
pub open spec fn tls_view(t: TlsClientConfig) -> (Seq<char>, Option<Seq<Seq<char>>>) {
    (
        t.name@,
        match t.trust_cert_paths {
            Some(v) => Some(v.deep_view()),
            None => None,
        },
    )
}

pub open spec fn opt_tls_view(t: Option<TlsClientConfig>) -> Option<
    (Seq<char>, Option<Seq<Seq<char>>>),
> {
    match t {
        Some(x) => Some(tls_view(x)),
        None => None,
    }
}

/// A copy of a vector of strings, character for character.
fn clone_string_vec(v: &Vec<String>) -> (r: Vec<String>)
    ensures
        r.deep_view() == v.deep_view(),
{
    let n = v.len();
    let mut r: Vec<String> = Vec::new();
    let mut i: usize = 0;
    while i < n
        invariant
            0 <= i <= n,
            n == v@.len(),
            r@.len() == i,
            forall|j: int| 0 <= j < i ==> r@[j]@ == #[trigger] v@[j]@,
        decreases n - i,
    {
        r.push(v[i].clone());
        i = i + 1;
    }
    proof {
        assert(r.deep_view() =~~= v.deep_view());
    }
    r
}

impl TlsClientConfig {
    /// A copy that carries the same name and trust anchors.
    pub fn dup(&self) -> (r: TlsClientConfig)
        ensures
            tls_view(r) == tls_view(*self),
    {
        let name = self.name.clone();
        let trust = match &self.trust_cert_paths {
            None => None,
            Some(v) => Some(clone_string_vec(v)),
        };
        TlsClientConfig { name, trust_cert_paths: trust }
    }
}

/// A partial connector configuration: each setting may be left open for a
/// later entry — or the defaults — to fill.
#[derive(Debug)]
pub struct ConnectorConfig {
    pub connect_timeout_ms: Option<u64>,
    pub tls: Option<TlsClientConfig>,
    pub max_waiters: Option<usize>,
    pub min_connections: Option<usize>,
    pub failure_limit: Option<usize>,
    pub failure_penalty_ms: Option<u64>,
}

/// The value of a partial configuration.
pub open spec fn cfg_view(c: ConnectorConfig) -> (
    Option<u64>,
    Option<(Seq<char>, Option<Seq<Seq<char>>>)>,
    Option<usize>,
    Option<usize>,
    Option<usize>,
    Option<u64>,
) {
    (
        c.connect_timeout_ms,
        opt_tls_view(c.tls),
        c.max_waiters,
        c.min_connections,
        c.failure_limit,
        c.failure_penalty_ms,
    )
}

/// A later entry overrides an earlier one wherever it is set.
pub open spec fn upd_view(
    a: (
        Option<u64>,
        Option<(Seq<char>, Option<Seq<Seq<char>>>)>,
        Option<usize>,
        Option<usize>,
        Option<usize>,
        Option<u64>,
    ),
    b: (
        Option<u64>,
        Option<(Seq<char>, Option<Seq<Seq<char>>>)>,
        Option<usize>,
        Option<usize>,
        Option<usize>,
        Option<u64>,
    ),
) -> (
    Option<u64>,
    Option<(Seq<char>, Option<Seq<Seq<char>>>)>,
    Option<usize>,
    Option<usize>,
    Option<usize>,
    Option<u64>,
) {
    (
        if b.0 is Some { b.0 } else { a.0 },
        if b.1 is Some { b.1 } else { a.1 },
        if b.2 is Some { b.2 } else { a.2 },
        if b.3 is Some { b.3 } else { a.3 },
        if b.4 is Some { b.4 } else { a.4 },
        if b.5 is Some { b.5 } else { a.5 },
    )
}

/// The all-open partial configuration.
pub open spec fn empty_view() -> (
    Option<u64>,
    Option<(Seq<char>, Option<Seq<Seq<char>>>)>,
    Option<usize>,
    Option<usize>,
    Option<usize>,
    Option<u64>,
) {
    (None, None, None, None, None, None)
}

impl ConnectorConfig {
    pub fn new() -> (r: ConnectorConfig)
        ensures
            cfg_view(r) == empty_view(),
    {
        ConnectorConfig {
            connect_timeout_ms: None,
            tls: None,
            max_waiters: None,
            min_connections: None,
            failure_limit: None,
            failure_penalty_ms: None,
        }
    }

    /// Folds `other` into this configuration: every setting `other` holds
    /// replaces this one's.
    pub fn update(&mut self, other: &ConnectorConfig)
        ensures
            cfg_view(*final(self)) == upd_view(cfg_view(*old(self)), cfg_view(*other)),
    {
        if let Some(t) = other.connect_timeout_ms {
            self.connect_timeout_ms = Some(t);
        }
        if let Some(tls) = &other.tls {
            self.tls = Some(tls.dup());
        }
        if let Some(m) = other.max_waiters {
            self.max_waiters = Some(m);
        }
        if let Some(m) = other.min_connections {
            self.min_connections = Some(m);
        }
        if let Some(f) = other.failure_limit {
            self.failure_limit = Some(f);
        }
        if let Some(p) = other.failure_penalty_ms {
            self.failure_penalty_ms = Some(p);
        }
    }
}

/// The connector built from the folded configuration of one destination.
#[derive(Debug)]
pub struct Connector {
    pub connect_timeout_ms: Option<u64>,
    pub tls: Option<TlsClientConfig>,
    pub max_waiters: usize,
    pub min_connections: usize,
    pub fail_limit: usize,
    pub fail_penalty_ms: u64,
}

/// The value of a connector.
pub open spec fn con_view(c: Connector) -> (
    Option<u64>,
    Option<(Seq<char>, Option<Seq<Seq<char>>>)>,
    usize,
    usize,
    usize,
    u64,
) {
    (
        c.connect_timeout_ms,
        opt_tls_view(c.tls),
        c.max_waiters,
        c.min_connections,
        c.fail_limit,
        c.fail_penalty_ms,
    )
}

/// The default failure streak at which an endpoint is penalized.
pub const DEFAULT_FAILURE_LIMIT: usize = 5;

/// The default penalty window in milliseconds.
pub const DEFAULT_FAILURE_PENALTY_MS: u64 = 60000;

/// What a partial configuration finalizes to: every open setting takes
/// its default.
pub open spec fn finalize_view(
    v: (
        Option<u64>,
        Option<(Seq<char>, Option<Seq<Seq<char>>>)>,
        Option<usize>,
        Option<usize>,
        Option<usize>,
        Option<u64>,
    ),
) -> (Option<u64>, Option<(Seq<char>, Option<Seq<Seq<char>>>)>, usize, usize, usize, u64) {
    (
        v.0,
        v.1,
        match v.2 {
            Some(m) => m,
            None => DEFAULT_MAX_WAITERS,
        },
        match v.3 {
            Some(m) => m,
            None => 0,
        },
        match v.4 {
            Some(f) => f,
            None => DEFAULT_FAILURE_LIMIT,
        },
        match v.5 {
            Some(p) => p,
            None => DEFAULT_FAILURE_PENALTY_MS,
        },
    )
}

impl ConnectorConfig {
    /// The concrete connector this configuration describes, with defaults
    /// filled in.
    pub fn mk_connector(&self) -> (r: Connector)
        ensures
            con_view(r) == finalize_view(cfg_view(*self)),
    {
        let tls = match &self.tls {
            None => None,
            Some(t) => Some(t.dup()),
        };
        Connector {
            connect_timeout_ms: self.connect_timeout_ms,
            tls,
            max_waiters: match self.max_waiters {
                Some(m) => m,
                None => DEFAULT_MAX_WAITERS,
            },
            min_connections: match self.min_connections {
                Some(m) => m,
                None => 0,
            },
            fail_limit: match self.failure_limit {
                Some(f) => f,
                None => DEFAULT_FAILURE_LIMIT,
            },
            fail_penalty_ms: match self.failure_penalty_ms {
                Some(p) => p,
                None => DEFAULT_FAILURE_PENALTY_MS,
            },
        }
    }
}

impl Connector {
    pub fn max_waiters(&self) -> (r: usize)
        ensures
            r == self.max_waiters,
    {
        self.max_waiters
    }

    pub fn min_connections(&self) -> (r: usize)
        ensures
            r == self.min_connections,
    {
        self.min_connections
    }

    pub fn failure_limit(&self) -> (r: usize)
        ensures
            r == self.fail_limit,
    {
        self.fail_limit
    }

    pub fn failure_penalty(&self) -> (r: u64)
        ensures
            r == self.fail_penalty_ms,
    {
        self.fail_penalty_ms
    }

    /// A copy that carries the same settings.
    pub fn dup(&self) -> (r: Connector)
        ensures
            con_view(r) == con_view(*self),
    {
        let tls = match &self.tls {
            None => None,
            Some(t) => Some(t.dup()),
        };
        Connector {
            connect_timeout_ms: self.connect_timeout_ms,
            tls,
            max_waiters: self.max_waiters,
            min_connections: self.min_connections,
            fail_limit: self.fail_limit,
            fail_penalty_ms: self.fail_penalty_ms,
        }
    }
}

/// The steps one outbound connect takes: a raw TCP connect, an optional
/// TLS client handshake, raced against the timeout when one is set.
#[derive(Clone, Copy, PartialEq, Eq, Structural, Debug)]
pub enum ConnectPlan {
    Plain,
    PlainTimeout(u64),
    TlsHandshake,
    TlsHandshakeTimeout(u64),
}

impl Connector {
    /// The decision inside a connect: whether to handshake and whether to
    /// race a timer.
    pub fn connect_plan(&self) -> (r: ConnectPlan)
        ensures
            r == (match (self.connect_timeout_ms, self.tls) {
                (None, Option::<TlsClientConfig>::None) => ConnectPlan::Plain,
                (Some(t), Option::<TlsClientConfig>::None) => ConnectPlan::PlainTimeout(t),
                (None, Some(_)) => ConnectPlan::TlsHandshake,
                (Some(t), Some(_)) => ConnectPlan::TlsHandshakeTimeout(t),
            }),
    {
        match (self.connect_timeout_ms, &self.tls) {
            (None, None) => ConnectPlan::Plain,
            (Some(t), None) => ConnectPlan::PlainTimeout(t),
            (None, Some(_)) => ConnectPlan::TlsHandshake,
            (Some(t), Some(_)) => ConnectPlan::TlsHandshakeTimeout(t),
        }
    }
}

/// The configuration folded over every entry whose prefix the destination
/// name starts with, in order: later matches override earlier ones.
pub open spec fn folded(entries: Seq<(Path, ConnectorConfig)>, dst: Seq<Seq<char>>) -> (
    Option<u64>,
    Option<(Seq<char>, Option<Seq<Seq<char>>>)>,
    Option<usize>,
    Option<usize>,
    Option<usize>,
    Option<u64>,
)
    decreases entries.len(),
{
    if entries.len() == 0 {
        empty_view()
    } else {
        let prev = folded(entries.drop_last(), dst);
        if is_prefix(path_view(entries.last().0), dst) {
            upd_view(prev, cfg_view(entries.last().1))
        } else {
            prev
        }
    }
}

proof fn lemma_folded_take_step(entries: Seq<(Path, ConnectorConfig)>, dst: Seq<Seq<char>>, i: int)
    requires
        0 <= i < entries.len(),
    ensures
        folded(entries.take(i + 1), dst) == (if is_prefix(path_view(entries[i].0), dst) {
            upd_view(folded(entries.take(i), dst), cfg_view(entries[i].1))
        } else {
            folded(entries.take(i), dst)
        }),
{
    assert(entries.take(i + 1).drop_last() =~= entries.take(i));
    assert(entries.take(i + 1).last() == entries[i]);
}

/// Builds a connector for each name.
pub struct ConnectorFactory {
    pub inner: ConnectorFactoryInner,
}

pub enum ConnectorFactoryInner {
    /// Uses a single connector for all names.
    StaticGlobal(Connector),
    /// Folds every configuration whose prefix matches the name; the set of
    /// configurations never changes.
    StaticPrefixed(Vec<(Path, ConnectorConfig)>),
}

impl ConnectorFactory {
    pub fn new_global(conn: Connector) -> (r: ConnectorFactory)
        ensures
            r.inner matches ConnectorFactoryInner::StaticGlobal(c) && con_view(c) == con_view(conn),
    {
        ConnectorFactory { inner: ConnectorFactoryInner::StaticGlobal(conn) }
    }

    pub fn new_prefixed(prefixed_configs: Vec<(Path, ConnectorConfig)>) -> (r: ConnectorFactory)
        ensures
            r.inner matches ConnectorFactoryInner::StaticPrefixed(v)
                && v@ == prefixed_configs@,
    {
        ConnectorFactory { inner: ConnectorFactoryInner::StaticPrefixed(prefixed_configs) }
    }

    /// The connector for destination `dst_name`: the global one, or every
    /// matching prefix entry folded in order and finalized with defaults.
    pub fn mk_connector(&self, dst_name: &Path) -> (r: Connector)
        ensures
            self.inner matches ConnectorFactoryInner::StaticGlobal(c)
                ==> con_view(r) == con_view(c),
            self.inner matches ConnectorFactoryInner::StaticPrefixed(v)
                ==> con_view(r) == finalize_view(folded(v@, path_view(*dst_name))),
    {
        match &self.inner {
            ConnectorFactoryInner::StaticGlobal(c) => c.dup(),
            ConnectorFactoryInner::StaticPrefixed(entries) => {
                let n = entries.len();
                let mut config = ConnectorConfig::new();
                let mut i: usize = 0;
                while i < n
                    invariant
                        0 <= i <= n,
                        n == entries@.len(),
                        cfg_view(config) == folded(entries@.take(i as int), path_view(*dst_name)),
                    decreases n - i,
                {
                    let (ref pfx, ref c) = entries[i];
                    proof {
                        assert(entries@[i as int].0 == *pfx);
                        assert(entries@[i as int].1 == *c);
                    }
                    if dst_name.starts_with(pfx) {
                        config.update(c);
                    }
                    proof {
                        lemma_folded_take_step(entries@, path_view(*dst_name), i as int);
                    }
                    i = i + 1;
                }
                proof {
                    assert(entries@.take(n as int) =~= entries@);
                }
                config.mk_connector()
            },
        }
    }
}

} // verus!
