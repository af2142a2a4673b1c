use crowdb::rpc::endpoint;
use crowdb::rpc::pool::{rr_index, ConnectionPool, PoolStep};

fn connect(p: &mut ConnectionPool, at: &str, connection: u64) {
    match p.acquire(at) {
        PoolStep::Connect { endpoint, .. } => p.connected(&endpoint, connection),
        other => panic!("unexpected step {other:?}"),
    }
}

#[test]
fn endpoints_are_normalized() {
    assert_eq!(endpoint::normalize_endpoint("0.0.0.0:9"), "http://127.0.0.1:9");
    assert_eq!(endpoint::normalize_endpoint("https://h:9"), "https://h:9");
    assert_eq!(endpoint::normalize_endpoint("http://0.0.0.0:9"), "http://127.0.0.1:9");
    assert_eq!(endpoint::strip_scheme("https://h:9"), "h:9");
    assert_eq!(endpoint::strip_scheme("h:9"), "h:9");
}

#[test]
fn normalized_endpoints_are_normal_already() {
    for e in ["0.0.0.0:9000", "http://0.0.0.0:9000", "h:1", "https://0.0.0.0:1", "", "://0.0.0.0:2"]
    {
        let once = endpoint::normalize_endpoint(e);
        assert!(once.starts_with("http://") || once.starts_with("https://"));
        assert!(!once.contains("://0.0.0.0:"));
        assert_eq!(endpoint::normalize_endpoint(&once), once);
    }
    assert_eq!(endpoint::normalize_endpoint("0.0.0.0:9000"), "http://127.0.0.1:9000");
    assert_eq!(endpoint::normalize_endpoint("http://0.0.0.0:9000"), "http://127.0.0.1:9000");
    assert_eq!(endpoint::normalize_endpoint("https://0.0.0.0:9000"), "https://127.0.0.1:9000");
    assert_eq!(endpoint::normalize_endpoint("http://h:1/0.0.0.0:2"), "http://h:1/0.0.0.0:2");
}

#[test]
fn endpoints_are_split_at_the_last_colon() {
    assert_eq!(endpoint::parse_endpoint("http://[::1]:80"), Ok(("[::1]".into(), 80)));
    assert_eq!(endpoint::parse_endpoint("h:-1"), Ok(("h".into(), -1)));
    assert_eq!(
        endpoint::parse_endpoint("http://host"),
        Err("invalid endpoint: http://host".into())
    );
    assert!(endpoint::parse_endpoint("h:port").is_err());
    assert!(endpoint::parse_endpoint("h:2147483648").is_err());
    assert_eq!(endpoint::split_port("a:b:c"), Some(("a:b".into(), "c".into())));
    assert_eq!(endpoint::split_port("abc"), None);
}

#[test]
fn pools_fill_before_they_turn() {
    let mut p = ConnectionPool::new(2);
    connect(&mut p, "0.0.0.0:9", 100);
    connect(&mut p, "http://127.0.0.1:9", 101);
    let used: Vec<PoolStep> = (0..3).map(|_| p.acquire("127.0.0.1:9")).collect();
    assert_eq!(used, vec![PoolStep::Use(100), PoolStep::Use(101), PoolStep::Use(100)]);
    assert_eq!(
        p.acquire("other:9"),
        PoolStep::Connect { endpoint: "http://other:9".into(), host: "other".into(), port: 9 }
    );
}

#[test]
fn pools_hold_at_least_one_connection() {
    let mut p = ConnectionPool::new(0);
    connect(&mut p, "h:1", 7);
    assert_eq!(p.acquire("h:1"), PoolStep::Use(7));
    assert_eq!(p.acquire("h:1"), PoolStep::Use(7));
}

#[test]
fn pools_refuse_what_is_no_endpoint() {
    let mut p = ConnectionPool::new(1);
    assert_eq!(p.acquire("host"), PoolStep::Invalid("invalid endpoint: http://host".into()));
}

#[test]
fn turns_wrap_around() {
    let mut turn = u64::MAX;
    assert_eq!(rr_index(&mut turn, 4), 3);
    assert_eq!(turn, 0);
    assert_eq!(rr_index(&mut turn, 4), 0);
}
