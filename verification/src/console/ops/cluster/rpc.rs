//! Echo servers for measuring the transport alone.

use vstd::prelude::*;

use crate::console::config::{ServerEntry, ServiceType};
use crate::console::error::Error;
use crate::console::ops::cluster::kv::located_binary;
#[allow(unused_imports)]
use crate::console::ops::cluster::kv;
use crate::console::ops::cluster::{RpcDeployConfig, RpcDeploySummary};
use crate::console::ops::context::OpContext;
#[allow(unused_imports)]
use crate::scan;
#[allow(unused_imports)]
use crate::text;
use crate::text::decimal_text;

verus! {

/// The binary of an echo server. Refuses one that was not found or does not
/// exist.
pub fn rpc_binary(found: Option<(String, bool)>) -> (r: Result<String, Error>)
    ensures
        match found {
            None => r matches Err(e) && e.is_not_found("binary"@, "crowdb-rpc-fb-server"@),
            Some((path, exists)) => if exists {
                r == Ok::<String, Error>(path)
            } else {
                r matches Err(e) && e.is_not_found("binary"@, path@)
            },
        },
{
    located_binary("crowdb-rpc-fb-server", found)
}

/// The command line of an echo server.
pub open spec fn rpc_args(cfg: RpcDeployConfig, port: u16, log_dir: Seq<char>) -> Seq<Seq<char>> {
    let fixed = seq![
        "--port="@ + text::decimal(port as nat),
        "--io_engines="@ + text::decimal(cfg.io_engines as nat),
        "--io_workers="@ + text::decimal(cfg.io_workers as nat),
        "--logdir="@ + log_dir,
        "--metrics_interval="@ + text::decimal(cfg.metrics_interval as nat),
    ];
    if cfg.enable_nagle {
        fixed.push("--enable_nagle"@)
    } else {
        fixed
    }
}

fn with_number(flag: &str, n: u64) -> (s: String)
    ensures
        s@ == flag@ + text::decimal(n as nat),
{
    let mut s = flag.to_owned();
    s.append(decimal_text(n).as_str());
    s
}

/// The command line of an echo server on `port`.
pub fn local_deploy_rpc(cfg: &RpcDeployConfig, port: u16, log_dir: &str) -> (args: Vec<String>)
    ensures
        scan::texts(args@) == rpc_args(*cfg, port, log_dir@),
{
    let port_arg = with_number("--port=", port as u64);
    let engines = with_number("--io_engines=", cfg.io_engines as u64);
    let workers = with_number("--io_workers=", cfg.io_workers as u64);
    let mut dir = "--logdir=".to_owned();
    dir.append(log_dir);
    let interval = with_number("--metrics_interval=", cfg.metrics_interval as u64);
    let mut args: Vec<String> = Vec::new();
    args.push(port_arg);
    args.push(engines);
    args.push(workers);
    args.push(dir);
    args.push(interval);
    if cfg.enable_nagle {
        args.push("--enable_nagle".to_owned());
    }
    assert(scan::texts(args@) =~= rpc_args(*cfg, port, log_dir@));
    args
}

/// What is done next while an echo server comes up.
#[derive(Debug, Clone, Copy, PartialEq, Eq, Structural)]
pub enum RpcReady {
    /// Try to connect.
    Connect,
    /// It will not come up: the time is over, or the process is gone.
    Failed,
}

/// Whether the wait for an echo server goes on.
pub fn wait_for_rpc_ready(now: u64, deadline: u64, alive: bool) -> (r: RpcReady)
    ensures
        r == (if now < deadline && alive {
            RpcReady::Connect
        } else {
            RpcReady::Failed
        }),
{
    if now < deadline && alive {
        RpcReady::Connect
    } else {
        RpcReady::Failed
    }
}

/// The error of an echo server that did not come up.
pub fn rpc_not_ready(port: u16) -> (e: Error)
    ensures
        e.is_io(
            "crowdb-rpc-fb-server did not bind on port "@ + text::decimal(port as nat)
                + " within 10s"@,
        ),
{
    let mut s = "crowdb-rpc-fb-server did not bind on port ".to_owned();
    s.append(decimal_text(port as u64).as_str());
    s.append(" within 10s");
    Error::Io(s)
}

/// Where an echo server is reached.
pub open spec fn rpc_url(port: u16) -> Seq<char> {
    "http://127.0.0.1:"@ + text::decimal(port as nat)
}

/// Records an echo server, so that it goes down with the cluster.
pub fn record_rpc(
    ctx: &mut OpContext,
    cfg: &RpcDeployConfig,
    port: u16,
    pid: u32,
    binary: &str,
) -> (r: Result<RpcDeploySummary, Error>)
    ensures
        final(ctx).same_setup(*old(ctx)),
        final(ctx).pending == old(ctx).pending,
        old(ctx).records().well_formed() ==> final(ctx).records().well_formed(),
        kv::server_added(
            old(ctx).records(),
            "rpc-fb-"@ + text::decimal(pid as nat),
            rpc_url(port),
            final(ctx).records(),
            match r {
                Ok(_) => Ok(()),
                Err(e) => Err(e),
            },
        ),
        r matches Ok(s) ==> {
            let e = final(ctx).records().servers.last();
            &&& s == (RpcDeploySummary {
                port,
                pid,
                io_engines: cfg.io_engines,
                io_workers: cfg.io_workers,
                nagle: cfg.enable_nagle,
            })
            &&& kv::is_service_entry(
                e,
                "rpc-fb-"@ + text::decimal(pid as nat),
                rpc_url(port),
                rpc_url(port),
                None,
                None,
                port,
                pid,
                ServiceType::Rpc,
            )
            &&& !e.auto_start
            &&& e.binary matches Some(b) && b@ == binary@
        },
{
    let url = with_number("http://127.0.0.1:", port as u64);
    let added = ctx.registry.add_server(
        ServerEntry {
            id: with_number("rpc-fb-", pid as u64),
            url: url.clone(),
            node_id: None,
            rpc_url: Some(url),
            rest_port: None,
            rpc_port: Some(port),
            auto_start: false,
            binary: Some(binary.to_owned()),
            election_profile: None,
            pid: Some(pid),
            service_type: ServiceType::Rpc,
            rpc_workers: None,
            no_fsync: false,
        },
    );
    match added {
        Ok(_) => Ok(
            RpcDeploySummary {
                port,
                pid,
                io_engines: cfg.io_engines,
                io_workers: cfg.io_workers,
                nagle: cfg.enable_nagle,
            },
        ),
        Err(e) => Err(e),
    }
}

/// The command line of an echo server gives every setting behind its own name,
/// and turns on Nagle's algorithm only where asked to.
pub proof fn lemma_rpc_command_line(cfg: RpcDeployConfig, port: u16, log_dir: Seq<char>)
    ensures
        ({
            let a = rpc_args(cfg, port, log_dir);
            &&& a[0] == "--port="@ + text::decimal(port as nat)
            &&& a[1] == "--io_engines="@ + text::decimal(cfg.io_engines as nat)
            &&& a[2] == "--io_workers="@ + text::decimal(cfg.io_workers as nat)
            &&& a[3] == "--logdir="@ + log_dir
            &&& a[4] == "--metrics_interval="@ + text::decimal(cfg.metrics_interval as nat)
            &&& cfg.enable_nagle ==> a.len() == 6 && a[5] == "--enable_nagle"@
            &&& !cfg.enable_nagle ==> a.len() == 5
        }),
        rpc_url(port) == "http://127.0.0.1:"@ + text::decimal(port as nat),
{
}

} // verus!
