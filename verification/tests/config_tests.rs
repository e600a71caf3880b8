use l4proxy::config::{
    config_format, AppConfig, ConfigFormat, NamerdConfig, ProxyConfig, ServerConfig,
    TlsClientConfig, DEFAULT_BUFFER_SIZE, DEFAULT_MAX_WAITERS,
};
use l4proxy::connector::{
    ConnectPlan, Connector, ConnectorConfig, ConnectorFactory, Path, DEFAULT_FAILURE_LIMIT,
    DEFAULT_FAILURE_PENALTY_MS,
};
use l4proxy::metrics::{Counter, Gauge, Timer};
use l4proxy::Addr;

#[test]
fn format_detection() {
    assert_eq!(config_format(&b"{\"proxies\": []}".to_vec()), ConfigFormat::Json);
    assert_eq!(config_format(&b"  \n\t {\"a\":1}".to_vec()), ConfigFormat::Json);
    assert_eq!(config_format(&b"proxies:\n  - servers: []\n".to_vec()), ConfigFormat::Yaml);
    assert_eq!(config_format(&b"   \n".to_vec()), ConfigFormat::Yaml);
    assert_eq!(config_format(&Vec::new()), ConfigFormat::Yaml);
}

#[test]
fn config_defaults() {
    let app = AppConfig { proxies: Vec::new(), buffer_size: None };
    assert_eq!(app.buffer_size_or_default(), DEFAULT_BUFFER_SIZE);
    let app = AppConfig { proxies: Vec::new(), buffer_size: Some(1234) };
    assert_eq!(app.buffer_size_or_default(), 1234);

    let namerd = NamerdConfig {
        addr: Addr { ip: 1, port: 4180 },
        path: String::from("/svc/default"),
        namespace: None,
        interval_secs: None,
    };
    assert_eq!(namerd.interval_secs_or_default(), 60);
    assert_eq!(namerd.namespace_or_default(), "default");

    let proxy = ProxyConfig {
        servers: Vec::new(),
        namerd,
        client: None,
        max_waiters: None,
    };
    assert_eq!(proxy.max_waiters_or_default(), DEFAULT_MAX_WAITERS);
}

#[test]
fn server_config_addr() {
    let a = Addr { ip: 0, port: 4321 };
    let tcp = ServerConfig::Tcp { addr: a };
    assert_eq!(tcp.addr(), a);
    let tls = ServerConfig::Tls {
        addr: a,
        alpn_protocols: None,
        default_identity: None,
        identities: None,
    };
    assert_eq!(tls.addr(), a);
}

fn path(labels: &[&str]) -> Path {
    Path::new(labels.iter().map(|l| l.to_string()).collect())
}

#[test]
fn path_prefixes() {
    let name = path(&["svc", "foo", "bar"]);
    assert!(name.starts_with(&path(&[])));
    assert!(name.starts_with(&path(&["svc"])));
    assert!(name.starts_with(&path(&["svc", "foo", "bar"])));
    assert!(!name.starts_with(&path(&["svc", "baz"])));
    assert!(!name.starts_with(&path(&["svc", "foo", "bar", "qux"])));
}

#[test]
fn global_factory_hands_out_the_same_connector() {
    let conn = Connector {
        connect_timeout_ms: Some(250),
        tls: None,
        max_waiters: 4,
        min_connections: 1,
        fail_limit: 3,
        fail_penalty_ms: 500,
    };
    let f = ConnectorFactory::new_global(conn);
    let c = f.mk_connector(&path(&["svc", "foo"]));
    assert_eq!(c.connect_timeout_ms, Some(250));
    assert_eq!(c.max_waiters(), 4);
    assert_eq!(c.min_connections(), 1);
    assert_eq!(c.failure_limit(), 3);
    assert_eq!(c.failure_penalty(), 500);
    assert_eq!(c.connect_plan(), ConnectPlan::PlainTimeout(250));
}

#[test]
fn prefixed_factory_folds_matches_in_order() {
    let mut base = ConnectorConfig::new();
    base.connect_timeout_ms = Some(100);
    base.max_waiters = Some(2);
    let mut narrower = ConnectorConfig::new();
    narrower.connect_timeout_ms = Some(900);
    narrower.tls = Some(TlsClientConfig { name: String::from("foo.example"), trust_cert_paths: None });
    let mut unrelated = ConnectorConfig::new();
    unrelated.connect_timeout_ms = Some(7);

    let f = ConnectorFactory::new_prefixed(vec![
        (path(&[]), base),
        (path(&["svc", "foo"]), narrower),
        (path(&["web"]), unrelated),
    ]);
    // Later matching entries override earlier ones; non-matching entries
    // are skipped; open settings take the defaults.
    let c = f.mk_connector(&path(&["svc", "foo", "bar"]));
    assert_eq!(c.connect_timeout_ms, Some(900));
    assert_eq!(c.tls.as_ref().unwrap().name, "foo.example");
    assert_eq!(c.max_waiters(), 2);
    assert_eq!(c.min_connections(), 0);
    assert_eq!(c.failure_limit(), DEFAULT_FAILURE_LIMIT);
    assert_eq!(c.failure_penalty(), DEFAULT_FAILURE_PENALTY_MS);
    assert_eq!(c.connect_plan(), ConnectPlan::TlsHandshakeTimeout(900));

    let c = f.mk_connector(&path(&["web", "ui"]));
    assert_eq!(c.connect_timeout_ms, Some(7));
    assert!(c.tls.is_none());
    assert_eq!(c.connect_plan(), ConnectPlan::PlainTimeout(7));
}

#[test]
fn connect_plan_covers_all_shapes() {
    let mut c = Connector {
        connect_timeout_ms: None,
        tls: None,
        max_waiters: 8,
        min_connections: 0,
        fail_limit: 5,
        fail_penalty_ms: 0,
    };
    assert_eq!(c.connect_plan(), ConnectPlan::Plain);
    c.tls = Some(TlsClientConfig { name: String::from("x"), trust_cert_paths: None });
    assert_eq!(c.connect_plan(), ConnectPlan::TlsHandshake);
}

#[test]
fn metrics_arithmetic() {
    let mut c = Counter::new();
    c.incr(2);
    c.incr(3);
    assert_eq!(c.value, 5);
    let mut sat = Counter { value: u64::MAX - 1 };
    sat.incr(10);
    assert_eq!(sat.value, u64::MAX);

    let mut g = Gauge::new();
    g.set(42);
    assert_eq!(g.value, 42);

    let mut t = Timer::new();
    t.record(30);
    t.record(12);
    assert_eq!(t.count, 2);
    assert_eq!(t.total_ms, 42);
}
