//! Connection pools: a fixed number of connections per endpoint, used in
//! turn. A connection is known here by its number.

use dashmap::DashMap;
use vstd::prelude::*;

#[allow(unused_imports)]
use crate::rpc::endpoint;
use crate::rpc::endpoint::{normalize_endpoint, parse_endpoint};
#[allow(unused_imports)]
use crate::text;

verus! {

/// The concurrent hash map of the `dashmap` crate.
#[verifier::external_type_specification]
#[verifier::external_body]
#[verifier::reject_recursive_types(K)]
#[verifier::reject_recursive_types(V)]
#[verifier::reject_recursive_types(S)]
pub struct ExDashMap<K, V, S>(DashMap<K, V, S>);

/// What the map of pools holds: the connections of each endpoint.
pub uninterp spec fn pool_map(m: DashMap<String, Vec<u64>>) -> Map<Seq<char>, Seq<u64>>;

/// No endpoint has a pool.
pub open spec fn no_pools() -> Map<Seq<char>, Seq<u64>> {
    Map::empty()
}

/// `DashMap::new` makes an empty map.
#[verifier::external_body]
fn empty_pools() -> (m: DashMap<String, Vec<u64>>)
    ensures
        pool_map(m) == no_pools(),
{
    DashMap::new()
}

/// `DashMap::get` finds the value under a key; a copy of it is handed out.
#[verifier::external_body]
fn pool_of(m: &DashMap<String, Vec<u64>>, key: &str) -> (r: Option<Vec<u64>>)
    ensures
        match r {
            Some(v) => pool_map(*m).contains_key(key@) && v@ == pool_map(*m)[key@],
            None => !pool_map(*m).contains_key(key@),
        },
{
    m.get(key).map(|v| v.value().clone())
}

/// `DashMap::insert` puts a value under a key, in place of any other.
#[verifier::external_body]
fn set_pool(m: &mut DashMap<String, Vec<u64>>, key: String, v: Vec<u64>)
    ensures
        pool_map(*final(m)) == pool_map(*old(m)).insert(key@, v@),
{
    m.insert(key, v);
}

/// What to do to get a connection.
#[derive(Debug, Clone, PartialEq, Eq)]
pub enum PoolStep {
    /// Use this connection.
    Use(u64),
    /// Open one more connection to `host`:`port` and hand in its number for
    /// the endpoint.
    Connect { endpoint: String, host: String, port: i32 },
    /// The endpoint is malformed, for this reason.
    Invalid(String),
}

/// The connections to all endpoints.
pub struct ConnectionPool {
    connections: DashMap<String, Vec<u64>>,
    pool_size: usize,
    turn: u64,
}

/// The position of the `counter`-th pick among `len`.
pub fn rr_index(counter: &mut u64, len: usize) -> (i: usize)
    requires
        len > 0,
    ensures
        i == *old(counter) as int % len as int,
        i < len,
        *final(counter) == old(counter).wrapping_add(1),
{
    let n: u64 = *counter;
    *counter = n.wrapping_add(1);
    (n % len as u64) as usize
}

/// As many picks in a row as there are connections take each connection once:
/// no two of them are the same.
pub proof fn lemma_turns_differ(counter: nat, len: nat, j: nat, k: nat)
    requires
        j < k < len,
    ensures
        (counter + j) as int % len as int != (counter + k) as int % len as int,
{
    let a = (counter + j) as int;
    let b = (counter + k) as int;
    let n = len as int;
    if a % n == b % n {
        vstd::arithmetic::div_mod::lemma_fundamental_div_mod(a, n);
        vstd::arithmetic::div_mod::lemma_fundamental_div_mod(b, n);
        let d = b / n - a / n;
        assert(n * (b / n) - n * (a / n) == n * d) by (nonlinear_arith)
            requires
                d == b / n - a / n,
        ;
        assert(n * d == k - j);
        assert(d <= 0 ==> n * d <= 0) by (nonlinear_arith)
            requires
                n > 0,
        ;
        assert(d >= 1 ==> n * d >= n) by (nonlinear_arith)
            requires
                n > 0,
        ;
    }
}

impl ConnectionPool {
    /// The connections of each normalised endpoint.
    pub closed spec fn pools(self) -> Map<Seq<char>, Seq<u64>> {
        pool_map(self.connections)
    }

    /// How many connections an endpoint has when its pool is complete.
    pub closed spec fn size(self) -> nat {
        self.pool_size as nat
    }

    /// How many picks there have been, up to wrapping around.
    pub closed spec fn picks(self) -> u64 {
        self.turn
    }

    /// The pool size is positive, and no endpoint has more connections.
    pub open spec fn well_formed(self) -> bool {
        &&& self.size() > 0
        &&& forall|e: Seq<char>| #[trigger]
            self.pools().contains_key(e) ==> self.pools()[e].len() <= self.size()
    }

    /// The connections opened to the endpoint `e` so far.
    pub open spec fn opened(self, e: Seq<char>) -> Seq<u64> {
        if self.pools().contains_key(e) {
            self.pools()[e]
        } else {
            seq![]
        }
    }

    /// A pool of `pool_size` connections per endpoint, at least one.
    pub fn new(pool_size: usize) -> (p: Self)
        ensures
            p.well_formed(),
            p.pools() == no_pools(),
            p.size() == (if pool_size == 0 {
                1
            } else {
                pool_size as nat
            }),
            p.picks() == 0,
    {
        let pool_size: usize = if pool_size == 0 {
            1
        } else {
            pool_size
        };
        ConnectionPool { connections: empty_pools(), pool_size, turn: 0 }
    }

    /// The next step towards a connection to `rpc_endpoint`: one of a
    /// complete pool in turn, or one more to open.
    pub fn acquire(&mut self, rpc_endpoint: &str) -> (step: PoolStep)
        requires
            old(self).well_formed(),
        ensures
            final(self).well_formed(),
            final(self).pools() == old(self).pools(),
            final(self).size() == old(self).size(),
            ({
                let e = endpoint::normalized(rpc_endpoint@);
                let s = endpoint::without_scheme(e);
                let opened = old(self).opened(e);
                if opened.len() == old(self).size() {
                    &&& step == PoolStep::Use(opened[old(self).picks() as int % opened.len() as int])
                    &&& final(self).picks() == old(self).picks().wrapping_add(1)
                } else {
                    &&& final(self).picks() == old(self).picks()
                    &&& match step {
                        PoolStep::Use(_) => false,
                        PoolStep::Connect { endpoint: t, host, port } => t@ == e
                            && text::last_index(s, ':') is Some && host@ == endpoint::host_part(s)
                            && text::parsed_i32(endpoint::port_part(s)) == Some(port as int),
                        PoolStep::Invalid(reason) => if text::last_index(s, ':') is None {
                            reason@ == "invalid endpoint: "@ + e
                        } else {
                            text::parsed_i32(endpoint::port_part(s)) is None && reason@
                                == "invalid port in endpoint: "@ + e
                        },
                    }
                }
            }),
    {
        let normalized = normalize_endpoint(rpc_endpoint);
        if let Some(conns) = pool_of(&self.connections, normalized.as_str()) {
            if conns.len() == self.pool_size {
                let i = rr_index(&mut self.turn, conns.len());
                assert(self.pools() == old(self).pools());
                return PoolStep::Use(conns[i]);
            }
        }
        match parse_endpoint(normalized.as_str()) {
            Ok((host, port)) => PoolStep::Connect { endpoint: normalized, host, port },
            Err(reason) => PoolStep::Invalid(reason),
        }
    }

    /// Takes note of a connection opened for a normalised endpoint whose pool
    /// is not complete.
    pub fn connected(&mut self, endpoint: &str, connection: u64)
        requires
            old(self).well_formed(),
            old(self).opened(endpoint@).len() < old(self).size(),
        ensures
            final(self).well_formed(),
            final(self).pools() == old(self).pools().insert(
                endpoint@,
                old(self).opened(endpoint@).push(connection),
            ),
            final(self).size() == old(self).size(),
            final(self).picks() == old(self).picks(),
    {
        let mut conns = match pool_of(&self.connections, endpoint) {
            Some(v) => v,
            None => Vec::new(),
        };
        assert(conns@ =~= self.opened(endpoint@));
        conns.push(connection);
        set_pool(&mut self.connections, endpoint.to_owned(), conns);
    }
}

/// A pool is complete with as many connections as configured, and none has
/// more; an endpoint that was never asked for has none.
pub proof fn lemma_pools_bounded(p: ConnectionPool, e: Seq<char>)
    ensures
        p.well_formed() ==> p.size() > 0 && p.opened(e).len() <= p.size(),
        p.pools().contains_key(e) ==> p.opened(e) == p.pools()[e],
        !p.pools().contains_key(e) ==> p.opened(e).len() == 0,
        !no_pools().contains_key(e),
{
}

} // verus!
