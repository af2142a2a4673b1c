//! The command lines of the servers, and what is known of a server once it
//! was started.

use vstd::prelude::*;

use crate::console::error::Error;
use crate::console::lifecycle::{
    ChunkdbDeployRequest, DeployRequest, DeployedDiskdb, DeployedServer, DiskdbDeployRequest,
};
#[allow(unused_imports)]
use crate::scan;
#[allow(unused_imports)]
use crate::text;
use crate::text::{decimal_text, replace_all, starts_with};

verus! {

/// A host and a port.
pub open spec fn address(host: Seq<char>, port: u16) -> Seq<char> {
    host + ":"@ + text::decimal(port as nat)
}

/// The address of a listener, as a URL.
pub open spec fn http_address(host: Seq<char>, port: u16) -> Seq<char> {
    "http://"@ + host + ":"@ + text::decimal(port as nat)
}

pub fn address_text(host: &str, port: u16) -> (s: String)
    ensures
        s@ == address(host@, port),
{
    let mut s = host.to_owned();
    s.append(":");
    s.append(decimal_text(port as u64).as_str());
    s
}

pub fn http_address_text(host: &str, port: u16) -> (s: String)
    ensures
        s@ == http_address(host@, port),
{
    let mut s = "http://".to_owned();
    s.append(host);
    s.append(":");
    s.append(decimal_text(port as u64).as_str());
    s
}

/// An argument and its value, where there is one.
pub open spec fn text_option(flag: Seq<char>, v: Option<Seq<char>>) -> Seq<Seq<char>> {
    match v {
        Some(t) => seq![flag, t],
        None => seq![],
    }
}

/// An argument and its number, where there is one.
pub open spec fn number_option(flag: Seq<char>, v: Option<nat>) -> Seq<Seq<char>> {
    match v {
        Some(n) => seq![flag, text::decimal(n)],
        None => seq![],
    }
}

/// An argument without value, where it is wanted.
pub open spec fn switch(flag: Seq<char>, on: bool) -> Seq<Seq<char>> {
    if on {
        seq![flag]
    } else {
        seq![]
    }
}

pub open spec fn text_of_option(v: Option<String>) -> Option<Seq<char>> {
    match v {
        Some(t) => Some(t@),
        None => None,
    }
}

pub open spec fn of_u64(v: Option<u64>) -> Option<nat> {
    match v {
        Some(n) => Some(n as nat),
        None => None,
    }
}

pub open spec fn of_u32(v: Option<u32>) -> Option<nat> {
    match v {
        Some(n) => Some(n as nat),
        None => None,
    }
}

pub open spec fn of_usize(v: Option<usize>) -> Option<nat> {
    match v {
        Some(n) => Some(n as nat),
        None => None,
    }
}

fn widen_u32(v: Option<u32>) -> (r: Option<u64>)
    ensures
        of_u64(r) == of_u32(v),
{
    match v {
        Some(n) => Some(n as u64),
        None => None,
    }
}

fn widen_usize(v: Option<usize>) -> (r: Option<u64>)
    ensures
        of_u64(r) == of_usize(v),
{
    match v {
        Some(n) => Some(n as u64),
        None => None,
    }
}

fn push_arg(args: &mut Vec<String>, arg: &str)
    ensures
        scan::texts(final(args)@) == scan::texts(old(args)@) + seq![arg@],
{
    args.push(arg.to_owned());
    assert(scan::texts(args@) =~= scan::texts(old(args)@) + seq![arg@]);
}

fn push_text(args: &mut Vec<String>, flag: &str, v: &Option<String>)
    ensures
        scan::texts(final(args)@) == scan::texts(old(args)@) + text_option(
            flag@,
            text_of_option(*v),
        ),
{
    let ghost before = scan::texts(args@);
    match v {
        Some(t) => {
            push_arg(args, flag);
            push_arg(args, t.as_str());
            assert(before + seq![flag@] + seq![t@] =~= before + seq![flag@, t@]);
        },
        None => {
            assert(before + seq![] =~= before);
        },
    }
}

fn push_number(args: &mut Vec<String>, flag: &str, v: Option<u64>)
    ensures
        scan::texts(final(args)@) == scan::texts(old(args)@) + number_option(flag@, of_u64(v)),
{
    let ghost before = scan::texts(args@);
    match v {
        Some(n) => {
            let t = decimal_text(n);
            push_arg(args, flag);
            push_arg(args, t.as_str());
            assert(before + seq![flag@] + seq![t@] =~= before + seq![flag@, t@]);
        },
        None => {
            assert(before + seq![] =~= before);
        },
    }
}

fn push_switch(args: &mut Vec<String>, flag: &str, on: bool)
    ensures
        scan::texts(final(args)@) == scan::texts(old(args)@) + switch(flag@, on),
{
    let ghost before = scan::texts(args@);
    if on {
        push_arg(args, flag);
    } else {
        assert(before + seq![] =~= before);
    }
}

/// The arguments that tune a key-value server.
pub open spec fn benchmark_flags(req: DeployRequest) -> Seq<Seq<char>> {
    text_option("--kv-backend"@, text_of_option(req.kv_backend)) + text_option(
        "--wal-backend"@,
        text_of_option(req.wal_backend),
    ) + switch("--no-fsync"@, req.no_fsync) + number_option(
        "--metrics-interval"@,
        of_u64(req.metrics_interval),
    ) + number_option("--max-inflight"@, of_usize(req.max_inflight)) + number_option(
        "--coalesce-max-keys"@,
        of_usize(req.coalesce_max_keys),
    ) + number_option("--rpc-workers"@, of_u32(req.rpc_workers)) + number_option(
        "--peer-pool-size"@,
        of_usize(req.peer_pool_size),
    ) + switch("--enable-nagle"@, req.enable_nagle == Some(true)) + switch(
        "--quickack"@,
        req.quickack == Some(true),
    ) + switch("--event-write"@, req.event_write == Some(true)) + number_option(
        "--send-queue-capacity"@,
        of_u32(req.send_queue_capacity),
    )
}

fn is_on(v: Option<bool>) -> (r: bool)
    ensures
        r == (v == Some(true)),
{
    match v {
        Some(b) => b,
        None => false,
    }
}

/// The arguments that tune a key-value server.
pub fn apply_benchmark_flags(req: &DeployRequest) -> (args: Vec<String>)
    ensures
        scan::texts(args@) == benchmark_flags(*req),
{
    let mut args: Vec<String> = Vec::new();
    let ghost none: Seq<Seq<char>> = seq![];
    assert(scan::texts(args@) =~= none);
    let ghost first = text_option("--kv-backend"@, text_of_option(req.kv_backend));
    push_text(&mut args, "--kv-backend", &req.kv_backend);
    assert(none + first =~= first);
    push_text(&mut args, "--wal-backend", &req.wal_backend);
    push_switch(&mut args, "--no-fsync", req.no_fsync);
    push_number(&mut args, "--metrics-interval", req.metrics_interval);
    push_number(&mut args, "--max-inflight", widen_usize(req.max_inflight));
    push_number(&mut args, "--coalesce-max-keys", widen_usize(req.coalesce_max_keys));
    push_number(&mut args, "--rpc-workers", widen_u32(req.rpc_workers));
    push_number(&mut args, "--peer-pool-size", widen_usize(req.peer_pool_size));
    push_switch(&mut args, "--enable-nagle", is_on(req.enable_nagle));
    push_switch(&mut args, "--quickack", is_on(req.quickack));
    push_switch(&mut args, "--event-write", is_on(req.event_write));
    push_number(&mut args, "--send-queue-capacity", widen_u32(req.send_queue_capacity));
    args
}

fn append_args(args: &mut Vec<String>, more: &Vec<String>)
    ensures
        scan::texts(final(args)@) == scan::texts(old(args)@) + scan::texts(more@),
{
    let ghost before = scan::texts(args@);
    let mut i: usize = 0;
    assert(before + scan::texts(more@).take(0) =~= before);
    while i < more.len()
        invariant
            i <= more@.len(),
            scan::texts(args@) == before + scan::texts(more@).take(i as int),
        decreases more@.len() - i,
    {
        let ghost t = scan::texts(more@);
        push_arg(args, more[i].as_str());
        assert(before + t.take(i as int) + seq![more@[i as int]@] =~= before + t.take(i + 1));
        i = i + 1;
    }
    assert(scan::texts(more@).take(i as int) =~= scan::texts(more@));
}

/// The configuration file of a key-value server: the one that was asked for,
/// if any.
pub fn resolve_config_path(req: &DeployRequest) -> (r: Option<String>)
    ensures
        r == req.config,
{
    match &req.config {
        Some(c) => Some(c.clone()),
        None => None,
    }
}

/// The election profile: the one that was asked for, else the one that the
/// environment names.
pub open spec fn election_profile(asked: Option<String>, named: Option<String>) -> Seq<char> {
    match asked {
        Some(p) => p@,
        None => match named {
            Some(p) => p@,
            None => "default"@,
        },
    }
}

/// The directory that holds a key-value server's files: its workspace, or one
/// that is made for the port.
pub open spec fn server_root(workspace: Option<&str>, rest_port: u16) -> Seq<char> {
    match workspace {
        Some(dir) => dir@,
        None => "temp-data/crowdb-kv-server-deploy-"@ + text::decimal(rest_port as nat),
    }
}

/// The command line of a key-value server.
pub open spec fn server_args(
    req: DeployRequest,
    workspace: Option<&str>,
    extra: Seq<Seq<char>>,
    profile: Option<String>,
) -> Seq<Seq<char>> {
    seq![
        "--management-addr"@,
        "127.0.0.1"@,
        "--management-port"@,
        text::decimal(req.rest_port as nat),
        "--ports"@,
        text::decimal(req.rpc_port as nat),
        "--election-profile"@,
        election_profile(req.election_profile, profile),
    ] + text_option("--config"@, text_of_option(req.config)) + benchmark_flags(req) + extra + seq![
        "--root"@,
        server_root(workspace, req.rest_port),
    ]
}

/// How a key-value server is started.
#[derive(Debug, Clone, PartialEq, Eq)]
pub struct ServerLaunch {
    pub binary: String,
    pub args: Vec<String>,
    /// The directory that holds the server's files.
    pub root: String,
    pub mgmt_url: String,
    pub rpc_url: String,
}

/// What is wrong with the ports of a key-value server.
pub open spec fn port_fault(req: DeployRequest) -> Option<Seq<char>> {
    if req.rest_port == 0 || req.rpc_port == 0 {
        Some("rest_port and rpc_port must be non-zero"@)
    } else if req.rest_port == req.rpc_port {
        Some("rest_port and rpc_port must differ"@)
    } else {
        None
    }
}

/// What the request to start a key-value server comes to.
pub open spec fn is_launch(
    r: Result<ServerLaunch, Error>,
    req: DeployRequest,
    host: Seq<char>,
    workspace: Option<&str>,
    extra: Seq<Seq<char>>,
    found: Option<String>,
    profile: Option<String>,
) -> bool {
    match port_fault(req) {
        Some(t) => r matches Err(e) && e.is_validation("port"@, t),
        None => if req.binary is None && found is None {
            r matches Err(e) && e.is_validation(
                "binary"@,
                "could not locate crowdb-kv-server binary; set $CROWDB_KV_SERVER_BIN"@,
            )
        } else {
            r matches Ok(l) && {
                &&& l.binary@ == (match req.binary {
                    Some(b) => b@,
                    None => found->0@,
                })
                &&& scan::texts(l.args@) == server_args(req, workspace, extra, profile)
                &&& l.root@ == server_root(workspace, req.rest_port)
                &&& l.mgmt_url@ == http_address(host, req.rest_port)
                &&& l.rpc_url@ == http_address(host, req.rpc_port)
            }
        },
    }
}

fn server_command(
    req: &DeployRequest,
    workspace: Option<&str>,
    extra_args: &Vec<String>,
    profile: Option<String>,
) -> (r: (Vec<String>, String))
    ensures
        scan::texts(r.0@) == server_args(*req, workspace, scan::texts(extra_args@), profile),
        r.1@ == server_root(workspace, req.rest_port),
{
    let election = match &req.election_profile {
        Some(p) => p.clone(),
        None => match profile {
            Some(p) => p,
            None => "default".to_owned(),
        },
    };
    let root = match workspace {
        Some(dir) => dir.to_owned(),
        None => {
            let mut s = "temp-data/crowdb-kv-server-deploy-".to_owned();
            s.append(decimal_text(req.rest_port as u64).as_str());
            s
        },
    };
    let rest = decimal_text(req.rest_port as u64);
    let rpc = decimal_text(req.rpc_port as u64);
    let mut args: Vec<String> = Vec::new();
    args.push("--management-addr".to_owned());
    args.push("127.0.0.1".to_owned());
    args.push("--management-port".to_owned());
    args.push(rest);
    args.push("--ports".to_owned());
    args.push(rpc);
    args.push("--election-profile".to_owned());
    args.push(election);
    assert(scan::texts(args@) =~= seq![
        "--management-addr"@,
        "127.0.0.1"@,
        "--management-port"@,
        text::decimal(req.rest_port as nat),
        "--ports"@,
        text::decimal(req.rpc_port as nat),
        "--election-profile"@,
        election@,
    ]);
    push_text(&mut args, "--config", &resolve_config_path(req));
    append_args(&mut args, &apply_benchmark_flags(req));
    append_args(&mut args, extra_args);
    let ghost before = scan::texts(args@);
    push_arg(&mut args, "--root");
    push_arg(&mut args, root.as_str());
    assert(before + seq!["--root"@] + seq![root@] =~= before + seq!["--root"@, root@]);
    (args, root)
}

/// How a key-value server is started on `host`, in a workspace where there is
/// one, with `extra_args` behind the arguments of its own. `found` is what the
/// search for a binary gave, `profile` the election profile that the
/// environment names. Refuses ports that are zero or equal, and a server
/// without binary.
pub fn deploy_local_in_workspace(
    req: &DeployRequest,
    host: &str,
    workspace: Option<&str>,
    extra_args: &Vec<String>,
    found: Option<String>,
    profile: Option<String>,
) -> (r: Result<ServerLaunch, Error>)
    ensures
        is_launch(r, *req, host@, workspace, scan::texts(extra_args@), found, profile),
{
    if req.rest_port == 0 || req.rpc_port == 0 {
        return Err(
            Error::validation("port", "rest_port and rpc_port must be non-zero".to_owned()),
        );
    }
    if req.rest_port == req.rpc_port {
        return Err(Error::validation("port", "rest_port and rpc_port must differ".to_owned()));
    }
    let binary = match &req.binary {
        Some(b) => b.clone(),
        None => match found {
            Some(b) => b,
            None => {
                return Err(
                    Error::validation(
                        "binary",
                        "could not locate crowdb-kv-server binary; set $CROWDB_KV_SERVER_BIN".to_owned(),
                    ),
                );
            },
        },
    };
    let (args, root) = server_command(req, workspace, extra_args, profile);
    Ok(
        ServerLaunch {
            binary,
            args,
            root,
            mgmt_url: http_address_text(host, req.rest_port),
            rpc_url: http_address_text(host, req.rpc_port),
        },
    )
}

/// How a key-value server is started outside of any workspace.
pub fn deploy_local(
    req: &DeployRequest,
    host: &str,
    found: Option<String>,
    profile: Option<String>,
) -> (r: Result<ServerLaunch, Error>)
    ensures
        is_launch(r, *req, host@, None, Seq::empty(), found, profile),
{
    let none: Vec<String> = Vec::new();
    assert(scan::texts(none@) =~= Seq::<Seq<char>>::empty());
    deploy_local_in_workspace(req, host, None, &none, found, profile)
}

/// How a key-value server is started in a workspace.
pub fn deploy_local_in_dir(
    req: &DeployRequest,
    host: &str,
    workspace: &str,
    found: Option<String>,
    profile: Option<String>,
) -> (r: Result<ServerLaunch, Error>)
    ensures
        is_launch(r, *req, host@, Some(workspace), Seq::empty(), found, profile),
{
    let none: Vec<String> = Vec::new();
    assert(scan::texts(none@) =~= Seq::<Seq<char>>::empty());
    deploy_local_in_workspace(req, host, Some(workspace), &none, found, profile)
}

/// How a key-value server is started in a workspace, with further arguments.
pub fn deploy_local_in_dir_with_extra_args(
    req: &DeployRequest,
    host: &str,
    workspace: &str,
    extra_args: &Vec<String>,
    found: Option<String>,
    profile: Option<String>,
) -> (r: Result<ServerLaunch, Error>)
    ensures
        is_launch(
            r,
            *req,
            host@,
            Some(workspace),
            scan::texts(extra_args@),
            found,
            profile,
        ),
{
    deploy_local_in_workspace(req, host, Some(workspace), extra_args, found, profile)
}

/// The process that was started. Refuses one without process id.
fn known_pid(pid: Option<u32>, message: &str) -> (r: Result<u32, Error>)
    ensures
        match pid {
            Some(p) => r == Ok::<u32, Error>(p),
            None => r matches Err(e) && e.is_validation("pid"@, message@),
        },
{
    match pid {
        Some(p) => Ok(p),
        None => Err(Error::validation("pid", message.to_owned())),
    }
}

/// The key-value server that was started. Refuses one without process id.
pub fn server_started(req: &DeployRequest, launch: &ServerLaunch, pid: Option<u32>) -> (r: Result<
    DeployedServer,
    Error,
>)
    ensures
        match pid {
            Some(p) => r matches Ok(d) && d.server_id@ == req.server_id@ && d.mgmt_url@
                == launch.mgmt_url@ && d.rpc_url@ == launch.rpc_url@ && d.pid == p,
            None => r matches Err(e) && e.is_validation("pid"@, "spawned child has no pid"@),
        },
{
    match known_pid(pid, "spawned child has no pid") {
        Ok(p) => Ok(
            DeployedServer {
                server_id: req.server_id.clone(),
                mgmt_url: launch.mgmt_url.clone(),
                rpc_url: launch.rpc_url.clone(),
                pid: p,
            },
        ),
        Err(e) => Err(e),
    }
}

/// The file that a server's output goes to while its process id is not known.
pub fn output_name(server: &str) -> (s: String)
    ensures
        s@ == server@ + ".stdout.log"@,
{
    let mut s = server.to_owned();
    s.append(".stdout.log");
    s
}

/// The file that a server's output goes to.
pub fn pid_output_name(server: &str, pid: u32) -> (s: String)
    ensures
        s@ == server@ + "-"@ + text::decimal(pid as nat) + ".out.log"@,
{
    let mut s = server.to_owned();
    s.append("-");
    s.append(decimal_text(pid as u64).as_str());
    s.append(".out.log");
    s
}

/// The shell command that brings up a key-value server on another host. It
/// detaches the server and prints its process id.
pub fn remote_start_command(req: &DeployRequest, server_bin: &str) -> (s: String)
    ensures
        s@ == ({
            let port = text::decimal(req.rest_port as nat);
            let config = match req.config {
                Some(c) => " --config "@ + c@,
                None => Seq::<char>::empty(),
            };
            "nohup "@ + server_bin@ + config + " --root /tmp/crowdb-kv-server-"@ + port
                + " --management-addr 127.0.0.1 --management-port "@ + port + " --ports "@
                + text::decimal(req.rpc_port as nat) + " >/tmp/crowdb-kv-server."@ + port
                + ".out 2>/tmp/crowdb-kv-server."@ + port + ".err </dev/null & echo $!"@
        }),
{
    let port = decimal_text(req.rest_port as u64);
    let config = match &req.config {
        Some(c) => {
            let mut t = " --config ".to_owned();
            t.append(c.as_str());
            t
        },
        None => String::new(),
    };
    assert(req.config is None ==> config@ =~= Seq::<char>::empty());
    let mut s = "nohup ".to_owned();
    s.append(server_bin);
    s.append(config.as_str());
    s.append(" --root /tmp/crowdb-kv-server-");
    s.append(port.as_str());
    s.append(" --management-addr 127.0.0.1 --management-port ");
    s.append(port.as_str());
    s.append(" --ports ");
    s.append(decimal_text(req.rpc_port as u64).as_str());
    s.append(" >/tmp/crowdb-kv-server.");
    s.append(port.as_str());
    s.append(".out 2>/tmp/crowdb-kv-server.");
    s.append(port.as_str());
    s.append(".err </dev/null & echo $!");
    s
}

/// The binary of a disk database: one that stands in the workspace, or one
/// that has to be put there.
#[derive(Debug, Clone, PartialEq, Eq)]
pub enum DiskdbBinary {
    Staged(String),
    ToStage(String),
}

/// The binary that a disk database is started from: the one in the workspace
/// where there is one, else the one that a search found. Refuses a port that
/// is zero, and a database without binary.
pub fn diskdb_binary(
    req: &DiskdbDeployRequest,
    staged: Option<String>,
    found: Option<String>,
) -> (r: Result<DiskdbBinary, Error>)
    ensures
        if req.listen_port == 0 || req.http_port == 0 || req.rpc_port == 0 {
            r matches Err(e) && e.is_validation(
                "port"@,
                "listen_port, http_port, and rpc_port must all be non-zero"@,
            )
        } else {
            match staged {
                Some(p) => r == Ok::<DiskdbBinary, Error>(DiskdbBinary::Staged(p)),
                None => match found {
                    Some(p) => r == Ok::<DiskdbBinary, Error>(DiskdbBinary::ToStage(p)),
                    None => r matches Err(e) && e.is_validation(
                        "binary"@,
                        "could not locate crowdb-diskdb binary; set $CROWDB_DISKDB_BIN"@,
                    ),
                },
            }
        },
{
    if req.listen_port == 0 || req.http_port == 0 || req.rpc_port == 0 {
        return Err(
            Error::validation(
                "port",
                "listen_port, http_port, and rpc_port must all be non-zero".to_owned(),
            ),
        );
    }
    match staged {
        Some(p) => Ok(DiskdbBinary::Staged(p)),
        None => match found {
            Some(p) => Ok(DiskdbBinary::ToStage(p)),
            None => Err(
                Error::validation(
                    "binary",
                    "could not locate crowdb-diskdb binary; set $CROWDB_DISKDB_BIN".to_owned(),
                ),
            ),
        },
    }
}

/// How a disk or chunk database is started.
#[derive(Debug, Clone, PartialEq, Eq)]
pub struct DatabaseLaunch {
    pub args: Vec<String>,
    /// Where its health is asked for.
    pub mgmt_url: String,
    /// Where it is reached.
    pub endpoint: String,
}

/// Where a disk database's health is asked for, by the listening address of
/// its configuration. An address that stands for all interfaces is replaced by
/// the host.
pub open spec fn diskdb_mgmt_url(
    addr: Option<Seq<char>>,
    host: Seq<char>,
    default_port: u16,
) -> Seq<char> {
    match addr {
        Some(a) => if "http"@.is_prefix_of(a) {
            text::replaced(a, "0.0.0.0"@, host)
        } else {
            "http://"@ + text::replaced(a, "0.0.0.0"@, host)
        },
        None => http_address(host, default_port),
    }
}

fn mgmt_url_text(addr: Option<String>, host: &str, default_port: u16) -> (s: String)
    ensures
        s@ == diskdb_mgmt_url(text_of_option(addr), host@, default_port),
{
    match addr {
        Some(a) => {
            proof {
                reveal_strlit("0.0.0.0");
            }
            let replaced = replace_all(a.as_str(), "0.0.0.0", host);
            if starts_with(a.as_str(), "http") {
                replaced
            } else {
                let mut s = "http://".to_owned();
                s.append(replaced.as_str());
                s
            }
        },
        None => http_address_text(host, default_port),
    }
}

/// The command line of a disk database.
pub open spec fn diskdb_args(
    req: DiskdbDeployRequest,
    host: Seq<char>,
    config: Seq<char>,
    log_dir: Seq<char>,
) -> Seq<Seq<char>> {
    seq!["--config"@, config, "--log-dir"@, log_dir] + number_option(
        "--metrics-interval"@,
        of_u64(req.metrics_interval),
    ) + number_option("--rpc-workers"@, of_u32(req.rpc_workers)) + number_option(
        "--kv-connections"@,
        of_usize(req.kv_connections),
    ) + number_option("--kv-client-rpc-workers"@, of_u32(req.kv_client_rpc_workers)) + seq![
        "--listen-addr"@,
        address(host, req.listen_port),
        "--http-addr"@,
        address(host, req.http_port),
        "--rpc-listen-addr"@,
        address(host, req.rpc_port),
    ]
}

fn config_args(config: &str, log_dir: &str) -> (args: Vec<String>)
    ensures
        scan::texts(args@) == seq!["--config"@, config@, "--log-dir"@, log_dir@],
{
    let mut args: Vec<String> = Vec::new();
    args.push("--config".to_owned());
    args.push(config.to_owned());
    args.push("--log-dir".to_owned());
    args.push(log_dir.to_owned());
    assert(scan::texts(args@) =~= seq!["--config"@, config@, "--log-dir"@, log_dir@]);
    args
}

/// How a disk database is started on `host`, with the configuration file
/// `config`, which says to listen on `http_addr`.
pub fn deploy_diskdb_local(
    req: &DiskdbDeployRequest,
    host: &str,
    config: &str,
    log_dir: &str,
    http_addr: Option<String>,
    default_http_port: u16,
) -> (l: DatabaseLaunch)
    ensures
        scan::texts(l.args@) == diskdb_args(*req, host@, config@, log_dir@),
        l.mgmt_url@ == diskdb_mgmt_url(text_of_option(http_addr), host@, default_http_port),
        l.endpoint@ == http_address(host@, req.rpc_port),
{
    let mut args = config_args(config, log_dir);
    push_number(&mut args, "--metrics-interval", req.metrics_interval);
    push_number(&mut args, "--rpc-workers", widen_u32(req.rpc_workers));
    push_number(&mut args, "--kv-connections", widen_usize(req.kv_connections));
    push_number(&mut args, "--kv-client-rpc-workers", widen_u32(req.kv_client_rpc_workers));
    let ghost before = scan::texts(args@);
    let listen = address_text(host, req.listen_port);
    let http = address_text(host, req.http_port);
    let rpc = address_text(host, req.rpc_port);
    args.push("--listen-addr".to_owned());
    args.push(listen);
    args.push("--http-addr".to_owned());
    args.push(http);
    args.push("--rpc-listen-addr".to_owned());
    args.push(rpc);
    assert(scan::texts(args@) =~= before + seq![
        "--listen-addr"@,
        listen@,
        "--http-addr"@,
        http@,
        "--rpc-listen-addr"@,
        rpc@,
    ]);
    DatabaseLaunch {
        args,
        mgmt_url: mgmt_url_text(http_addr, host, default_http_port),
        endpoint: http_address_text(host, req.rpc_port),
    }
}

/// The binary that a chunk database is started from. Refuses ports that are
/// zero or equal, and a database without binary.
pub fn chunkdb_binary(req: &ChunkdbDeployRequest, found: Option<String>) -> (r: Result<
    String,
    Error,
>)
    ensures
        if req.http_port == 0 || req.rpc_port == 0 || req.http_port == req.rpc_port {
            r matches Err(e) && e.is_validation(
                "port"@,
                "chunkdb HTTP and RPC ports must be non-zero and distinct"@,
            )
        } else {
            match found {
                Some(p) => r == Ok::<String, Error>(p),
                None => r matches Err(e) && e.is_not_found(
                    "binary"@,
                    "crowdb-chunkdb (set CROWDB_CHUNKDB_BIN)"@,
                ),
            }
        },
{
    if req.http_port == 0 || req.rpc_port == 0 || req.http_port == req.rpc_port {
        return Err(
            Error::validation(
                "port",
                "chunkdb HTTP and RPC ports must be non-zero and distinct".to_owned(),
            ),
        );
    }
    match found {
        Some(p) => Ok(p),
        None => Err(
            Error::not_found("binary", "crowdb-chunkdb (set CROWDB_CHUNKDB_BIN)".to_owned()),
        ),
    }
}

/// The command line of a chunk database.
pub open spec fn chunkdb_args(
    req: ChunkdbDeployRequest,
    config: Seq<char>,
    log_dir: Seq<char>,
) -> Seq<Seq<char>> {
    seq!["--config"@, config, "--log-dir"@, log_dir] + number_option(
        "--rpc-workers"@,
        of_u32(req.rpc_workers),
    ) + number_option("--metrics-interval"@, of_u64(req.metrics_interval))
}

/// How a chunk database is started on `host`, with the configuration file
/// `config`.
pub fn deploy_chunkdb_local(
    req: &ChunkdbDeployRequest,
    host: &str,
    config: &str,
    log_dir: &str,
) -> (l: DatabaseLaunch)
    ensures
        scan::texts(l.args@) == chunkdb_args(*req, config@, log_dir@),
        l.mgmt_url@ == http_address(host@, req.http_port),
        l.endpoint@ == http_address(host@, req.rpc_port),
{
    let mut args = config_args(config, log_dir);
    push_number(&mut args, "--rpc-workers", widen_u32(req.rpc_workers));
    push_number(&mut args, "--metrics-interval", req.metrics_interval);
    DatabaseLaunch {
        args,
        mgmt_url: http_address_text(host, req.http_port),
        endpoint: http_address_text(host, req.rpc_port),
    }
}

/// The two databases.
#[derive(Debug, Clone, Copy, PartialEq, Eq, Structural)]
pub enum Database {
    Diskdb,
    Chunkdb,
}

/// The database that was started. Refuses one without process id.
pub fn database_started(
    which: Database,
    server_id: &str,
    launch: &DatabaseLaunch,
    pid: Option<u32>,
) -> (r: Result<DeployedDiskdb, Error>)
    ensures
        match pid {
            Some(p) => r matches Ok(d) && d.server_id@ == server_id@ && d.endpoint@
                == launch.endpoint@ && d.pid == p,
            None => r matches Err(e) && e.is_validation(
                "pid"@,
                if which == Database::Diskdb {
                    "spawned child has no pid"@
                } else {
                    "spawned ChunkDB child has no pid"@
                },
            ),
        },
{
    let message = if which == Database::Diskdb {
        "spawned child has no pid"
    } else {
        "spawned ChunkDB child has no pid"
    };
    match known_pid(pid, message) {
        Ok(p) => Ok(
            DeployedDiskdb {
                server_id: server_id.to_owned(),
                endpoint: launch.endpoint.clone(),
                pid: p,
            },
        ),
        Err(e) => Err(e),
    }
}

/// None of `args` is `flag`.
spec fn lacks(args: Seq<Seq<char>>, flag: Seq<char>) -> bool {
    forall|i: int| 0 <= i < args.len() ==> #[trigger] args[i] != flag
}

/// No option but `flag` stands in `args`.
spec fn only_option(args: Seq<Seq<char>>, flag: Seq<char>) -> bool {
    forall|i: int|
        0 <= i < args.len() ==> #[trigger] args[i] == flag || args[i].len() == 0 || args[i][0] != '-'
}

/// The first `n` of the pieces of a command line, one behind the other.
spec fn chained(pieces: Seq<Seq<Seq<char>>>, n: int) -> Seq<Seq<char>>
    decreases n,
{
    if n <= 0 {
        seq![]
    } else {
        chained(pieces, n - 1) + pieces[n - 1]
    }
}

proof fn lemma_chained_lacks(pieces: Seq<Seq<Seq<char>>>, n: int, flag: Seq<char>)
    requires
        0 <= n <= pieces.len(),
        forall|j: int| 0 <= j < n ==> lacks(#[trigger] pieces[j], flag),
    ensures
        lacks(chained(pieces, n), flag),
    decreases n,
{
    if n > 0 {
        lemma_chained_lacks(pieces, n - 1, flag);
        assert(lacks(pieces[n - 1], flag));
    }
}

/// A piece of a command line stands in one place of it, and where no other
/// piece holds `flag`, nothing before or behind it does.
proof fn lemma_piece_in_place(
    pieces: Seq<Seq<Seq<char>>>,
    n: int,
    k: int,
    flag: Seq<char>,
) -> (around: (Seq<Seq<char>>, Seq<Seq<char>>))
    requires
        0 <= k < n <= pieces.len(),
        forall|j: int| 0 <= j < n && j != k ==> lacks(#[trigger] pieces[j], flag),
    ensures
        chained(pieces, n) == around.0 + pieces[k] + around.1,
        lacks(around.0, flag),
        lacks(around.1, flag),
    decreases n,
{
    if k == n - 1 {
        lemma_chained_lacks(pieces, n - 1, flag);
        assert(chained(pieces, n) =~= chained(pieces, n - 1) + pieces[k] + seq![]);
        (chained(pieces, n - 1), seq![])
    } else {
        let (a, b) = lemma_piece_in_place(pieces, n - 1, k, flag);
        assert(lacks(pieces[n - 1], flag));
        assert(chained(pieces, n) =~= a + pieces[k] + (b + pieces[n - 1]));
        (a, b + pieces[n - 1])
    }
}

/// An option stands in the command line just where its own piece holds it, and
/// its value follows it there.
proof fn lemma_option_in_place(
    pieces: Seq<Seq<Seq<char>>>,
    options: Seq<Seq<char>>,
    k: int,
    i: int,
)
    requires
        pieces.len() == options.len(),
        0 <= k < pieces.len(),
        options[k].len() > 0 && options[k][0] == '-',
        forall|j: int| 0 <= j < pieces.len() ==> only_option(#[trigger] pieces[j], options[j]),
        forall|j: int| 0 <= j < options.len() && j != k ==> #[trigger] options[j] != options[k],
        pieces[k].len() == 0 || pieces[k] == seq![options[k]] || pieces[k].len() == 2 && pieces[k][0]
            == options[k] && pieces[k][1] != options[k],
    ensures
        ({
            let args = chained(pieces, pieces.len() as int);
            &&& args.contains(options[k]) <==> pieces[k].len() > 0
            &&& 0 <= i < args.len() && args[i] == options[k] && pieces[k].len() == 2 ==> i + 1
                < args.len() && args[i + 1] == pieces[k][1]
        }),
{
    let n = pieces.len() as int;
    let flag = options[k];
    let args = chained(pieces, n);
    assert forall|j: int| 0 <= j < n && j != k implies lacks(#[trigger] pieces[j], flag) by {
        assert(only_option(pieces[j], options[j]));
        assert(options[j] != flag);
    }
    let (a, b) = lemma_piece_in_place(pieces, n, k, flag);
    assert(args == a + pieces[k] + b);
    if pieces[k].len() > 0 {
        assert(args[a.len() as int] == flag);
    }
    assert forall|x: int| 0 <= x < args.len() && #[trigger] args[x] == flag implies x == a.len()
        && pieces[k].len() > 0 by {
        if x < a.len() {
            assert(a[x] == flag);
        } else if x < a.len() + pieces[k].len() {
            assert(pieces[k][x - a.len()] == flag);
        } else {
            assert(b[x - a.len() - pieces[k].len()] == flag);
        }
    }
}

proof fn lemma_number_stands_out(flag: Seq<char>, v: Option<nat>)
    requires
        flag.len() > 0 && flag[0] == '-',
    ensures
        only_option(number_option(flag, v), flag),
        v matches Some(n) ==> text::decimal(n) != flag,
{
    match v {
        Some(n) => {
            text::lemma_decimal_digits(n);
            assert(text::is_digit(text::decimal(n)[0]));
        },
        None => {},
    }
}

/// The pieces of the command line that tune a key-value server.
spec fn tunable_pieces(req: DeployRequest) -> Seq<Seq<Seq<char>>> {
    seq![
        text_option("--kv-backend"@, text_of_option(req.kv_backend)),
        text_option("--wal-backend"@, text_of_option(req.wal_backend)),
        switch("--no-fsync"@, req.no_fsync),
        number_option("--metrics-interval"@, of_u64(req.metrics_interval)),
        number_option("--max-inflight"@, of_usize(req.max_inflight)),
        number_option("--coalesce-max-keys"@, of_usize(req.coalesce_max_keys)),
        number_option("--rpc-workers"@, of_u32(req.rpc_workers)),
        number_option("--peer-pool-size"@, of_usize(req.peer_pool_size)),
        switch("--enable-nagle"@, req.enable_nagle == Some(true)),
        switch("--quickack"@, req.quickack == Some(true)),
        switch("--event-write"@, req.event_write == Some(true)),
        number_option("--send-queue-capacity"@, of_u32(req.send_queue_capacity)),
    ]
}

spec fn tunable_options() -> Seq<Seq<char>> {
    seq![
        "--kv-backend"@,
        "--wal-backend"@,
        "--no-fsync"@,
        "--metrics-interval"@,
        "--max-inflight"@,
        "--coalesce-max-keys"@,
        "--rpc-workers"@,
        "--peer-pool-size"@,
        "--enable-nagle"@,
        "--quickack"@,
        "--event-write"@,
        "--send-queue-capacity"@,
    ]
}

proof fn lemma_flags_chained(req: DeployRequest)
    ensures
        benchmark_flags(req) == chained(tunable_pieces(req), 12),
{
    reveal_with_fuel(chained, 13);
    let p = tunable_pieces(req);
    assert(Seq::<Seq<char>>::empty() + p[0] =~= p[0]);
}

proof fn lemma_options_differ()
    ensures
        forall|k: int| 0 <= k < 12 ==> (#[trigger] tunable_options()[k]).len() > 0,
        forall|k: int| 0 <= k < 12 ==> (#[trigger] tunable_options()[k])[0] == '-',
        forall|j: int, k: int|
            0 <= j < 12 && 0 <= k < 12 && j != k ==> #[trigger] tunable_options()[j]
                != #[trigger] tunable_options()[k],
{
    reveal_strlit("--kv-backend");
    reveal_strlit("--wal-backend");
    reveal_strlit("--no-fsync");
    reveal_strlit("--metrics-interval");
    reveal_strlit("--max-inflight");
    reveal_strlit("--coalesce-max-keys");
    reveal_strlit("--rpc-workers");
    reveal_strlit("--peer-pool-size");
    reveal_strlit("--enable-nagle");
    reveal_strlit("--quickack");
    reveal_strlit("--event-write");
    reveal_strlit("--send-queue-capacity");
    assert("--kv-backend"@.len() == 12 && "--kv-backend"@[0] == '-' && "--kv-backend"@[2] == 'k');
    assert("--wal-backend"@.len() == 13 && "--wal-backend"@[0] == '-' && "--wal-backend"@[2] == 'w');
    assert("--no-fsync"@.len() == 10 && "--no-fsync"@[0] == '-' && "--no-fsync"@[2] == 'n');
    assert("--metrics-interval"@.len() == 18 && "--metrics-interval"@[0] == '-' && "--metrics-interval"@[2] == 'm');
    assert("--max-inflight"@.len() == 14 && "--max-inflight"@[0] == '-' && "--max-inflight"@[2] == 'm');
    assert("--coalesce-max-keys"@.len() == 19 && "--coalesce-max-keys"@[0] == '-' && "--coalesce-max-keys"@[2] == 'c');
    assert("--rpc-workers"@.len() == 13 && "--rpc-workers"@[0] == '-' && "--rpc-workers"@[2] == 'r');
    assert("--peer-pool-size"@.len() == 16 && "--peer-pool-size"@[0] == '-' && "--peer-pool-size"@[2] == 'p');
    assert("--enable-nagle"@.len() == 14 && "--enable-nagle"@[0] == '-' && "--enable-nagle"@[2] == 'e');
    assert("--quickack"@.len() == 10 && "--quickack"@[0] == '-' && "--quickack"@[2] == 'q');
    assert("--event-write"@.len() == 13 && "--event-write"@[0] == '-' && "--event-write"@[2] == 'e');
    assert("--send-queue-capacity"@.len() == 21 && "--send-queue-capacity"@[0] == '-' && "--send-queue-capacity"@[2] == 's');
    let o = tunable_options();
    let size = seq![12nat, 13nat, 10nat, 18nat, 14nat, 19nat, 13nat, 16nat, 14nat, 10nat, 13nat, 21nat];
    let third = seq!['k', 'w', 'n', 'm', 'm', 'c', 'r', 'p', 'e', 'q', 'e', 's'];
    assert(forall|k: int| 0 <= k < 12 ==> (#[trigger] o[k]).len() == size[k] && o[k][2] == third[k]);
    assert(forall|j: int, k: int|
        0 <= j < 12 && 0 <= k < 12 && j != k ==> #[trigger] size[j] != #[trigger] size[k]
            || third[j] != third[k]);
    assert forall|j: int, k: int| 0 <= j < 12 && 0 <= k < 12 && j != k implies #[trigger] o[j]
        != #[trigger] o[k] by {
        assert(size[j] != size[k] || third[j] != third[k]);
    }
}

proof fn lemma_tunable(req: DeployRequest, k: int, i: int)
    requires
        req.kv_backend matches Some(t) ==> t@.len() == 0 || t@[0] != '-',
        req.wal_backend matches Some(t) ==> t@.len() == 0 || t@[0] != '-',
        0 <= k < 12,
    ensures
        ({
            let args = benchmark_flags(req);
            let piece = tunable_pieces(req)[k];
            &&& args.contains(tunable_options()[k]) <==> piece.len() > 0
            &&& 0 <= i < args.len() && args[i] == tunable_options()[k] && piece.len() == 2 ==> i + 1
                < args.len() && args[i + 1] == piece[1]
        }),
{
    let pieces = tunable_pieces(req);
    let options = tunable_options();
    lemma_flags_chained(req);
    lemma_options_differ();
    assert forall|j: int| 0 <= j < 12 implies only_option(#[trigger] pieces[j], options[j])
        && (pieces[j].len() == 0 || pieces[j] == seq![options[j]] || pieces[j].len() == 2
        && pieces[j][0] == options[j] && pieces[j][1] != options[j]) by {
        lemma_tunable_piece(req, j);
    }
    lemma_option_in_place(pieces, options, k, i);
}

proof fn lemma_tunable_piece(req: DeployRequest, j: int)
    requires
        req.kv_backend matches Some(t) ==> t@.len() == 0 || t@[0] != '-',
        req.wal_backend matches Some(t) ==> t@.len() == 0 || t@[0] != '-',
        0 <= j < 12,
    ensures
        ({
            let piece = tunable_pieces(req)[j];
            let option = tunable_options()[j];
            &&& only_option(piece, option)
            &&& piece.len() == 0 || piece == seq![option] || piece.len() == 2 && piece[0] == option
                && piece[1] != option
        }),
{
    lemma_options_differ();
    let option = tunable_options()[j];
    assert(option.len() > 0 && option[0] == '-');
    if j == 3 {
        lemma_number_stands_out(option, of_u64(req.metrics_interval));
    }
    if j == 4 {
        lemma_number_stands_out(option, of_usize(req.max_inflight));
    }
    if j == 5 {
        lemma_number_stands_out(option, of_usize(req.coalesce_max_keys));
    }
    if j == 6 {
        lemma_number_stands_out(option, of_u32(req.rpc_workers));
    }
    if j == 7 {
        lemma_number_stands_out(option, of_usize(req.peer_pool_size));
    }
    if j == 11 {
        lemma_number_stands_out(option, of_u32(req.send_queue_capacity));
    }
}

/// `--kv-backend` stands in the command line just where it is asked for, and its
/// value follows it wherever it stands.
pub proof fn lemma_kv_backend_option(req: DeployRequest, i: int)
    requires
        req.kv_backend matches Some(t) ==> t@.len() == 0 || t@[0] != '-',
        req.wal_backend matches Some(t) ==> t@.len() == 0 || t@[0] != '-',
    ensures
        benchmark_flags(req).contains("--kv-backend"@) <==> req.kv_backend is Some,
        0 <= i < benchmark_flags(req).len() && benchmark_flags(req)[i] == "--kv-backend"@ ==> i + 1
            < benchmark_flags(req).len() && benchmark_flags(req)[i + 1] == req.kv_backend->0@,
{
    let piece = tunable_pieces(req)[0];
    assert(piece == text_option("--kv-backend"@, text_of_option(req.kv_backend)));
    assert(tunable_options()[0] == "--kv-backend"@);
    lemma_tunable(req, 0, i);
}

/// `--wal-backend` stands in the command line just where it is asked for, and its
/// value follows it wherever it stands.
pub proof fn lemma_wal_backend_option(req: DeployRequest, i: int)
    requires
        req.kv_backend matches Some(t) ==> t@.len() == 0 || t@[0] != '-',
        req.wal_backend matches Some(t) ==> t@.len() == 0 || t@[0] != '-',
    ensures
        benchmark_flags(req).contains("--wal-backend"@) <==> req.wal_backend is Some,
        0 <= i < benchmark_flags(req).len() && benchmark_flags(req)[i] == "--wal-backend"@ ==> i + 1
            < benchmark_flags(req).len() && benchmark_flags(req)[i + 1] == req.wal_backend->0@,
{
    let piece = tunable_pieces(req)[1];
    assert(piece == text_option("--wal-backend"@, text_of_option(req.wal_backend)));
    assert(tunable_options()[1] == "--wal-backend"@);
    lemma_tunable(req, 1, i);
}

/// `--no-fsync` stands in the command line just where it is asked for.
pub proof fn lemma_no_fsync_option(req: DeployRequest)
    requires
        req.kv_backend matches Some(t) ==> t@.len() == 0 || t@[0] != '-',
        req.wal_backend matches Some(t) ==> t@.len() == 0 || t@[0] != '-',
    ensures
        benchmark_flags(req).contains("--no-fsync"@) <==> req.no_fsync,
{
    let piece = tunable_pieces(req)[2];
    assert(piece == switch("--no-fsync"@, req.no_fsync));
    assert(tunable_options()[2] == "--no-fsync"@);
    lemma_tunable(req, 2, 0);
}

/// `--metrics-interval` stands in the command line just where it is asked for, and its
/// value follows it wherever it stands.
pub proof fn lemma_metrics_interval_option(req: DeployRequest, i: int)
    requires
        req.kv_backend matches Some(t) ==> t@.len() == 0 || t@[0] != '-',
        req.wal_backend matches Some(t) ==> t@.len() == 0 || t@[0] != '-',
    ensures
        benchmark_flags(req).contains("--metrics-interval"@) <==> req.metrics_interval is Some,
        0 <= i < benchmark_flags(req).len() && benchmark_flags(req)[i] == "--metrics-interval"@ ==> i + 1
            < benchmark_flags(req).len() && benchmark_flags(req)[i + 1] == text::decimal(req.metrics_interval->0 as nat),
{
    let piece = tunable_pieces(req)[3];
    assert(piece == number_option("--metrics-interval"@, of_u64(req.metrics_interval)));
    assert(tunable_options()[3] == "--metrics-interval"@);
    lemma_tunable(req, 3, i);
}

/// `--max-inflight` stands in the command line just where it is asked for, and its
/// value follows it wherever it stands.
pub proof fn lemma_max_inflight_option(req: DeployRequest, i: int)
    requires
        req.kv_backend matches Some(t) ==> t@.len() == 0 || t@[0] != '-',
        req.wal_backend matches Some(t) ==> t@.len() == 0 || t@[0] != '-',
    ensures
        benchmark_flags(req).contains("--max-inflight"@) <==> req.max_inflight is Some,
        0 <= i < benchmark_flags(req).len() && benchmark_flags(req)[i] == "--max-inflight"@ ==> i + 1
            < benchmark_flags(req).len() && benchmark_flags(req)[i + 1] == text::decimal(req.max_inflight->0 as nat),
{
    let piece = tunable_pieces(req)[4];
    assert(piece == number_option("--max-inflight"@, of_usize(req.max_inflight)));
    assert(tunable_options()[4] == "--max-inflight"@);
    lemma_tunable(req, 4, i);
}

/// `--coalesce-max-keys` stands in the command line just where it is asked for, and its
/// value follows it wherever it stands.
pub proof fn lemma_coalesce_max_keys_option(req: DeployRequest, i: int)
    requires
        req.kv_backend matches Some(t) ==> t@.len() == 0 || t@[0] != '-',
        req.wal_backend matches Some(t) ==> t@.len() == 0 || t@[0] != '-',
    ensures
        benchmark_flags(req).contains("--coalesce-max-keys"@) <==> req.coalesce_max_keys is Some,
        0 <= i < benchmark_flags(req).len() && benchmark_flags(req)[i] == "--coalesce-max-keys"@ ==> i + 1
            < benchmark_flags(req).len() && benchmark_flags(req)[i + 1] == text::decimal(req.coalesce_max_keys->0 as nat),
{
    let piece = tunable_pieces(req)[5];
    assert(piece == number_option("--coalesce-max-keys"@, of_usize(req.coalesce_max_keys)));
    assert(tunable_options()[5] == "--coalesce-max-keys"@);
    lemma_tunable(req, 5, i);
}

/// `--rpc-workers` stands in the command line just where it is asked for, and its
/// value follows it wherever it stands.
pub proof fn lemma_rpc_workers_option(req: DeployRequest, i: int)
    requires
        req.kv_backend matches Some(t) ==> t@.len() == 0 || t@[0] != '-',
        req.wal_backend matches Some(t) ==> t@.len() == 0 || t@[0] != '-',
    ensures
        benchmark_flags(req).contains("--rpc-workers"@) <==> req.rpc_workers is Some,
        0 <= i < benchmark_flags(req).len() && benchmark_flags(req)[i] == "--rpc-workers"@ ==> i + 1
            < benchmark_flags(req).len() && benchmark_flags(req)[i + 1] == text::decimal(req.rpc_workers->0 as nat),
{
    let piece = tunable_pieces(req)[6];
    assert(piece == number_option("--rpc-workers"@, of_u32(req.rpc_workers)));
    assert(tunable_options()[6] == "--rpc-workers"@);
    lemma_tunable(req, 6, i);
}

/// `--peer-pool-size` stands in the command line just where it is asked for, and its
/// value follows it wherever it stands.
pub proof fn lemma_peer_pool_size_option(req: DeployRequest, i: int)
    requires
        req.kv_backend matches Some(t) ==> t@.len() == 0 || t@[0] != '-',
        req.wal_backend matches Some(t) ==> t@.len() == 0 || t@[0] != '-',
    ensures
        benchmark_flags(req).contains("--peer-pool-size"@) <==> req.peer_pool_size is Some,
        0 <= i < benchmark_flags(req).len() && benchmark_flags(req)[i] == "--peer-pool-size"@ ==> i + 1
            < benchmark_flags(req).len() && benchmark_flags(req)[i + 1] == text::decimal(req.peer_pool_size->0 as nat),
{
    let piece = tunable_pieces(req)[7];
    assert(piece == number_option("--peer-pool-size"@, of_usize(req.peer_pool_size)));
    assert(tunable_options()[7] == "--peer-pool-size"@);
    lemma_tunable(req, 7, i);
}

/// `--enable-nagle` stands in the command line just where it is asked for.
pub proof fn lemma_enable_nagle_option(req: DeployRequest)
    requires
        req.kv_backend matches Some(t) ==> t@.len() == 0 || t@[0] != '-',
        req.wal_backend matches Some(t) ==> t@.len() == 0 || t@[0] != '-',
    ensures
        benchmark_flags(req).contains("--enable-nagle"@) <==> req.enable_nagle == Some(true),
{
    let piece = tunable_pieces(req)[8];
    assert(piece == switch("--enable-nagle"@, req.enable_nagle == Some(true)));
    assert(tunable_options()[8] == "--enable-nagle"@);
    lemma_tunable(req, 8, 0);
}

/// `--quickack` stands in the command line just where it is asked for.
pub proof fn lemma_quickack_option(req: DeployRequest)
    requires
        req.kv_backend matches Some(t) ==> t@.len() == 0 || t@[0] != '-',
        req.wal_backend matches Some(t) ==> t@.len() == 0 || t@[0] != '-',
    ensures
        benchmark_flags(req).contains("--quickack"@) <==> req.quickack == Some(true),
{
    let piece = tunable_pieces(req)[9];
    assert(piece == switch("--quickack"@, req.quickack == Some(true)));
    assert(tunable_options()[9] == "--quickack"@);
    lemma_tunable(req, 9, 0);
}

/// `--event-write` stands in the command line just where it is asked for.
pub proof fn lemma_event_write_option(req: DeployRequest)
    requires
        req.kv_backend matches Some(t) ==> t@.len() == 0 || t@[0] != '-',
        req.wal_backend matches Some(t) ==> t@.len() == 0 || t@[0] != '-',
    ensures
        benchmark_flags(req).contains("--event-write"@) <==> req.event_write == Some(true),
{
    let piece = tunable_pieces(req)[10];
    assert(piece == switch("--event-write"@, req.event_write == Some(true)));
    assert(tunable_options()[10] == "--event-write"@);
    lemma_tunable(req, 10, 0);
}

/// `--send-queue-capacity` stands in the command line just where it is asked for, and its
/// value follows it wherever it stands.
pub proof fn lemma_send_queue_capacity_option(req: DeployRequest, i: int)
    requires
        req.kv_backend matches Some(t) ==> t@.len() == 0 || t@[0] != '-',
        req.wal_backend matches Some(t) ==> t@.len() == 0 || t@[0] != '-',
    ensures
        benchmark_flags(req).contains("--send-queue-capacity"@) <==> req.send_queue_capacity is Some,
        0 <= i < benchmark_flags(req).len() && benchmark_flags(req)[i] == "--send-queue-capacity"@ ==> i + 1
            < benchmark_flags(req).len() && benchmark_flags(req)[i + 1] == text::decimal(req.send_queue_capacity->0 as nat),
{
    let piece = tunable_pieces(req)[11];
    assert(piece == number_option("--send-queue-capacity"@, of_u32(req.send_queue_capacity)));
    assert(tunable_options()[11] == "--send-queue-capacity"@);
    lemma_tunable(req, 11, i);
}

/// An option with a value is two arguments, the value behind the option; a
/// switch is one. Where nothing is asked for, there is none.
pub proof fn lemma_options(flag: Seq<char>, value: Seq<char>, n: nat)
    ensures
        text_option(flag, Some(value)) == seq![flag, value],
        text_option(flag, None).len() == 0,
        number_option(flag, Some(n)) == seq![flag, text::decimal(n)],
        number_option(flag, None).len() == 0,
        switch(flag, true) == seq![flag],
        switch(flag, false).len() == 0,
{
}

/// What is given as text or number is passed on as it is.
pub proof fn lemma_values_passed_on(t: String, a: u64, b: u32, c: usize)
    ensures
        text_of_option(Some(t)) == Some(t@),
        text_of_option(None) is None,
        of_u64(Some(a)) == Some(a as nat) && of_u64(None) is None,
        of_u32(Some(b)) == Some(b as nat) && of_u32(None) is None,
        of_usize(Some(c)) == Some(c as nat) && of_usize(None) is None,
{
}

/// An address is the host, a colon and the port in decimal; as a URL it starts
/// with `http://`.
pub proof fn lemma_addresses(host: Seq<char>, port: u16)
    ensures
        address(host, port) == host + ":"@ + text::decimal(port as nat),
        http_address(host, port) == "http://"@ + address(host, port),
{
    assert(http_address(host, port) =~= "http://"@ + address(host, port));
}

/// The profile that was asked for goes before the one that the environment
/// names, and that before the default.
pub proof fn lemma_profiles(asked: Option<String>, named: Option<String>)
    ensures
        asked is Some ==> election_profile(asked, named) == asked->0@,
        asked is None && named is Some ==> election_profile(asked, named) == named->0@,
        asked is None && named is None ==> election_profile(asked, named) == "default"@,
{
}

/// A server keeps its files in its workspace; without one, servers on different
/// ports keep theirs apart.
pub proof fn lemma_server_roots(dir: &str, a: u16, b: u16)
    ensures
        server_root(Some(dir), a) == dir@,
        server_root(None, a) == "temp-data/crowdb-kv-server-deploy-"@ + text::decimal(a as nat),
        a != b ==> server_root(None, a) != server_root(None, b),
{
    let p = "temp-data/crowdb-kv-server-deploy-"@;
    let x = p + text::decimal(a as nat);
    let y = p + text::decimal(b as nat);
    assert(x.skip(p.len() as int) =~= text::decimal(a as nat));
    assert(y.skip(p.len() as int) =~= text::decimal(b as nat));
    if x == y {
        text::lemma_decimal_injective(a as nat, b as nat);
    }
}

/// The command line of a key-value server starts with where it listens and with
/// its profile, goes on with the configuration, the tunables and the further
/// arguments, each as they are, and ends with its directory.
pub proof fn lemma_server_command_line(
    req: DeployRequest,
    workspace: Option<&str>,
    extra: Seq<Seq<char>>,
    profile: Option<String>,
    i: int,
)
    ensures
        ({
            let a = server_args(req, workspace, extra, profile);
            let tunables = benchmark_flags(req);
            let at = if req.config is Some {
                10int
            } else {
                8
            };
            &&& a.len() == at + tunables.len() + extra.len() + 2
            &&& a[0] == "--management-addr"@ && a[1] == "127.0.0.1"@
            &&& a[2] == "--management-port"@ && a[3] == text::decimal(req.rest_port as nat)
            &&& a[4] == "--ports"@ && a[5] == text::decimal(req.rpc_port as nat)
            &&& a[6] == "--election-profile"@ && a[7] == election_profile(
                req.election_profile,
                profile,
            )
            &&& req.config is Some ==> a[8] == "--config"@ && a[9] == req.config->0@
            &&& 0 <= i < tunables.len() ==> a[at + i] == tunables[i]
            &&& 0 <= i < extra.len() ==> a[at + tunables.len() + i] == extra[i]
            &&& a[a.len() - 2] == "--root"@
            &&& a[a.len() - 1] == server_root(workspace, req.rest_port)
        }),
{
    lemma_server_line_around(req, benchmark_flags(req), workspace, extra, profile, i);
}

proof fn lemma_server_line_around(
    req: DeployRequest,
    tunables: Seq<Seq<char>>,
    workspace: Option<&str>,
    extra: Seq<Seq<char>>,
    profile: Option<String>,
    i: int,
)
    ensures
        ({
            let a = seq![
                "--management-addr"@,
                "127.0.0.1"@,
                "--management-port"@,
                text::decimal(req.rest_port as nat),
                "--ports"@,
                text::decimal(req.rpc_port as nat),
                "--election-profile"@,
                election_profile(req.election_profile, profile),
            ] + text_option("--config"@, text_of_option(req.config)) + tunables + extra + seq![
                "--root"@,
                server_root(workspace, req.rest_port),
            ];
            let at = if req.config is Some {
                10int
            } else {
                8
            };
            &&& a.len() == at + tunables.len() + extra.len() + 2
            &&& a[0] == "--management-addr"@ && a[1] == "127.0.0.1"@
            &&& a[2] == "--management-port"@ && a[3] == text::decimal(req.rest_port as nat)
            &&& a[4] == "--ports"@ && a[5] == text::decimal(req.rpc_port as nat)
            &&& a[6] == "--election-profile"@ && a[7] == election_profile(
                req.election_profile,
                profile,
            )
            &&& req.config is Some ==> a[8] == "--config"@ && a[9] == req.config->0@
            &&& 0 <= i < tunables.len() ==> a[at + i] == tunables[i]
            &&& 0 <= i < extra.len() ==> a[at + tunables.len() + i] == extra[i]
            &&& a[a.len() - 2] == "--root"@
            &&& a[a.len() - 1] == server_root(workspace, req.rest_port)
        }),
{
}

/// The ports of a key-value server are in order just where neither is 0 and
/// they differ.
pub proof fn lemma_ports_in_order(req: DeployRequest)
    ensures
        port_fault(req) is None <==> req.rest_port != 0 && req.rpc_port != 0 && req.rest_port
            != req.rpc_port,
        req.rest_port == 0 || req.rpc_port == 0 ==> port_fault(req) == Some(
            "rest_port and rpc_port must be non-zero"@,
        ),
        req.rest_port == req.rpc_port && req.rest_port != 0 ==> port_fault(req) == Some(
            "rest_port and rpc_port must differ"@,
        ),
{
}

/// A server is started from the binary that was asked for, else from the one
/// that was found, with its own command line and directory, and is reached at
/// its own two ports. Where the ports are not in order or no binary is known,
/// it is refused.
pub proof fn lemma_launches(
    r: Result<ServerLaunch, Error>,
    req: DeployRequest,
    host: Seq<char>,
    workspace: Option<&str>,
    extra: Seq<Seq<char>>,
    found: Option<String>,
    profile: Option<String>,
)
    requires
        is_launch(r, req, host, workspace, extra, found, profile),
    ensures
        r is Ok <==> req.rest_port != 0 && req.rpc_port != 0 && req.rest_port != req.rpc_port && (
        req.binary is Some || found is Some),
        r matches Ok(l) ==> {
            &&& req.binary is Some ==> l.binary@ == req.binary->0@
            &&& req.binary is None ==> l.binary@ == found->0@
            &&& l.args@.len() == server_args(req, workspace, extra, profile).len()
            &&& l.root@ == server_root(workspace, req.rest_port)
            &&& l.mgmt_url@ == "http://"@ + host + ":"@ + text::decimal(req.rest_port as nat)
            &&& l.rpc_url@ == "http://"@ + host + ":"@ + text::decimal(req.rpc_port as nat)
        },
        r is Err && port_fault(req) is None ==> r->Err_0.is_validation(
            "binary"@,
            "could not locate crowdb-kv-server binary; set $CROWDB_KV_SERVER_BIN"@,
        ),
        r is Err && port_fault(req) is Some ==> r->Err_0.is_validation(
            "port"@,
            port_fault(req)->0,
        ),
{
}

/// The arguments of a started server are those of its command line, one by one.
pub proof fn lemma_launched_arguments(
    l: ServerLaunch,
    req: DeployRequest,
    host: Seq<char>,
    workspace: Option<&str>,
    extra: Seq<Seq<char>>,
    found: Option<String>,
    profile: Option<String>,
    i: int,
)
    requires
        is_launch(Ok(l), req, host, workspace, extra, found, profile),
        0 <= i < l.args@.len(),
    ensures
        l.args@[i]@ == server_args(req, workspace, extra, profile)[i],
{
    let args = server_args(req, workspace, extra, profile);
    assert(scan::texts(l.args@) == args);
    assert(scan::texts(l.args@)[i] == l.args@[i]@);
}

/// A disk database is asked for its health where its configuration says that it
/// listens, by the host where it listens everywhere, and at the default port of
/// the host where nothing is said.
pub proof fn lemma_diskdb_mgmt_urls(a: Seq<char>, host: Seq<char>, port: u16)
    ensures
        diskdb_mgmt_url(None, host, port) == "http://"@ + host + ":"@ + text::decimal(port as nat),
        "http"@.is_prefix_of(a) ==> diskdb_mgmt_url(Some(a), host, port) == text::replaced(
            a,
            "0.0.0.0"@,
            host,
        ),
        !("http"@.is_prefix_of(a)) ==> diskdb_mgmt_url(Some(a), host, port) == "http://"@
            + text::replaced(a, "0.0.0.0"@, host),
{
}

/// The command line of a disk database: its configuration and log directory,
/// the numbers that are given, each behind its own option, and its three
/// listening addresses.
pub proof fn lemma_diskdb_command_line(
    req: DiskdbDeployRequest,
    host: Seq<char>,
    config: Seq<char>,
    log_dir: Seq<char>,
)
    ensures
        ({
            let a = diskdb_args(req, host, config, log_dir);
            let m = if req.metrics_interval is Some {
                2int
            } else {
                0
            };
            let w = m + (if req.rpc_workers is Some {
                2int
            } else {
                0
            });
            let c = w + (if req.kv_connections is Some {
                2int
            } else {
                0
            });
            let k = c + (if req.kv_client_rpc_workers is Some {
                2int
            } else {
                0
            });
            &&& a.len() == 10 + k
            &&& a[0] == "--config"@ && a[1] == config && a[2] == "--log-dir"@ && a[3] == log_dir
            &&& req.metrics_interval matches Some(n) ==> a[4] == "--metrics-interval"@ && a[5]
                == text::decimal(n as nat)
            &&& req.rpc_workers matches Some(n) ==> a[4 + m] == "--rpc-workers"@ && a[5 + m]
                == text::decimal(n as nat)
            &&& req.kv_connections matches Some(n) ==> a[4 + w] == "--kv-connections"@ && a[5 + w]
                == text::decimal(n as nat)
            &&& req.kv_client_rpc_workers matches Some(n) ==> a[4 + c] == "--kv-client-rpc-workers"@
                && a[5 + c] == text::decimal(n as nat)
            &&& a[4 + k] == "--listen-addr"@ && a[5 + k] == host + ":"@ + text::decimal(
                req.listen_port as nat,
            )
            &&& a[6 + k] == "--http-addr"@ && a[7 + k] == host + ":"@ + text::decimal(
                req.http_port as nat,
            )
            &&& a[8 + k] == "--rpc-listen-addr"@ && a[9 + k] == host + ":"@ + text::decimal(
                req.rpc_port as nat,
            )
        }),
{
}

/// The command line of a chunk database: its configuration and log directory,
/// and the numbers that are given, each behind its own option.
pub proof fn lemma_chunkdb_command_line(
    req: ChunkdbDeployRequest,
    config: Seq<char>,
    log_dir: Seq<char>,
)
    ensures
        ({
            let a = chunkdb_args(req, config, log_dir);
            let w = if req.rpc_workers is Some {
                2int
            } else {
                0
            };
            let m = w + (if req.metrics_interval is Some {
                2int
            } else {
                0
            });
            &&& a.len() == 4 + m
            &&& a[0] == "--config"@ && a[1] == config && a[2] == "--log-dir"@ && a[3] == log_dir
            &&& req.rpc_workers matches Some(n) ==> a[4] == "--rpc-workers"@ && a[5]
                == text::decimal(n as nat)
            &&& req.metrics_interval matches Some(n) ==> a[4 + w] == "--metrics-interval"@ && a[5
                + w] == text::decimal(n as nat)
        }),
{
}

} // verus!
