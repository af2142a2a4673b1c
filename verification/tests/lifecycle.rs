use crowdb::console::error::Error;
use crowdb::console::lifecycle::binary;
use crowdb::console::lifecycle::binary::{Candidate, Lookup};
use crowdb::console::lifecycle::command;
use crowdb::console::lifecycle::command::{Database, DiskdbBinary};
use crowdb::console::lifecycle::config_text;
use crowdb::console::lifecycle::wait;
use crowdb::console::lifecycle::wait::{
    GroupStatus, Poll, PollStep, StopPhase, StopProcess, StopStep, Wait, WaitEvent, WaitStep,
};
use crowdb::console::lifecycle::{ChunkdbDeployRequest, DeployRequest, DiskdbDeployRequest};

fn request() -> DeployRequest {
    DeployRequest { server_id: "kv-1".into(), rest_port: 9101, rpc_port: 9201, ..Default::default() }
}

fn chunkdb_request() -> ChunkdbDeployRequest {
    ChunkdbDeployRequest {
        server_id: "chunkdb-1".into(),
        instance_id: 301,
        http_port: 9301,
        rpc_port: 9302,
        kv_server_mgmt_seeds: vec!["http://a:1".into(), "say \"hi\"\\".into()],
        allow_unsafe_ec: true,
        rpc_workers: Some(4),
        kv_connections: Some(3),
        kv_client_rpc_workers: None,
        diskdb_connections: None,
        diskdb_client_rpc_workers: Some(5),
        metrics_interval: Some(2),
    }
}

fn diskdb_request() -> DiskdbDeployRequest {
    DiskdbDeployRequest {
        server_id: "diskdb-1".into(),
        listen_port: 7001,
        http_port: 7002,
        rpc_port: 7003,
        ..Default::default()
    }
}

fn validation(e: Error) -> (String, String) {
    match e {
        Error::Validation { field, message } => (field.to_string(), message),
        other => panic!("unexpected error {other:?}"),
    }
}

fn place(path: &str, usable: bool) -> Candidate {
    Candidate { path: path.into(), usable }
}

#[test]
fn empty_and_unexecutable_files_are_not_binaries() {
    assert!(binary::is_executable(true, 10, 0o755));
    assert!(binary::is_executable(true, 10, 0o001));
    assert!(!binary::is_executable(true, 0, 0o755));
    assert!(!binary::is_executable(true, 10, 0o644));
    assert!(!binary::is_executable(false, 10, 0o755));
}

#[test]
fn binaries_are_searched_in_order() {
    let beside = vec![place("/x/kv", false), place("/x/target/kv", true), place("/kv", true)];
    let on_path = vec![place("/usr/bin/kv", true)];
    assert_eq!(binary::find_in_path(&beside), Some("/x/target/kv".into()));
    assert_eq!(
        binary::server_bin(Some("/named".into()), &beside, &on_path),
        Some("/named".into())
    );
    assert_eq!(binary::server_bin(None, &beside, &on_path), Some("/x/target/kv".into()));
    assert_eq!(binary::server_bin(None, &vec![], &on_path), Some("/usr/bin/kv".into()));
    assert_eq!(binary::server_bin(None, &vec![], &vec![]), None);
}

#[test]
fn the_key_value_server_on_the_search_path_is_named_only() {
    let beside = vec![place("/x/kv", false), place("/x/target/kv", true)];
    let on_path = vec![place("/usr/bin/crowdb-kv-server", true)];
    assert_eq!(
        binary::kv_server_bin(Some("/named".into()), &beside, &on_path),
        Some("/named".into())
    );
    assert_eq!(binary::kv_server_bin(None, &beside, &on_path), Some("/x/target/kv".into()));
    assert_eq!(binary::kv_server_bin(None, &vec![], &on_path), Some("crowdb-kv-server".into()));
    assert_eq!(binary::kv_server_bin(None, &vec![], &vec![]), None);
}

#[test]
fn binaries_are_resolved_by_the_form_of_their_path() {
    assert_eq!(binary::resolve_binary_path(true, 3), Lookup::AsGiven);
    assert_eq!(binary::resolve_binary_path(false, 2), Lookup::Relative);
    assert_eq!(binary::resolve_binary_path(false, 1), Lookup::OnPath);
    assert_eq!(binary::staging_source("kv", Some("/usr/bin/kv".into())).unwrap(), "/usr/bin/kv");
    let (field, message) = validation(binary::staging_source("kv", None).unwrap_err());
    assert_eq!(field, "binary");
    assert_eq!(message, "could not resolve server binary path: kv");
    assert_eq!(binary::staged_name(Some("kv".into())), "kv");
    assert_eq!(binary::staged_name(None), "crowdb-kv-server");
}

#[test]
fn server_command_line_without_options() {
    let l = command::deploy_local(&request(), "10.0.0.1", Some("/bin/kv".into()), None).unwrap();
    assert_eq!(l.binary, "/bin/kv");
    assert_eq!(
        l.args,
        vec![
            "--management-addr",
            "127.0.0.1",
            "--management-port",
            "9101",
            "--ports",
            "9201",
            "--election-profile",
            "default",
            "--root",
            "temp-data/crowdb-kv-server-deploy-9101",
        ]
    );
    assert_eq!(l.root, "temp-data/crowdb-kv-server-deploy-9101");
    assert_eq!(l.mgmt_url, "http://10.0.0.1:9101");
    assert_eq!(l.rpc_url, "http://10.0.0.1:9201");
}

#[test]
fn server_command_line_with_every_option() {
    let req = DeployRequest {
        binary: Some("/own/kv".into()),
        kv_backend: Some("rocksdb".into()),
        wal_backend: Some("mem".into()),
        no_fsync: true,
        metrics_interval: Some(7),
        max_inflight: Some(64),
        coalesce_max_keys: Some(128),
        rpc_workers: Some(3),
        peer_pool_size: Some(2),
        enable_nagle: Some(true),
        quickack: Some(false),
        event_write: Some(true),
        send_queue_capacity: Some(512),
        config: Some("/etc/kv.toml".into()),
        ..request()
    };
    let l = command::deploy_local_in_dir_with_extra_args(
        &req,
        "127.0.0.1",
        "/ws",
        &vec!["--join".into()],
        Some("/bin/kv".into()),
        Some("fast".into()),
    )
    .unwrap();
    assert_eq!(l.binary, "/own/kv");
    assert_eq!(
        l.args[6..],
        [
            "--election-profile",
            "fast",
            "--config",
            "/etc/kv.toml",
            "--kv-backend",
            "rocksdb",
            "--wal-backend",
            "mem",
            "--no-fsync",
            "--metrics-interval",
            "7",
            "--max-inflight",
            "64",
            "--coalesce-max-keys",
            "128",
            "--rpc-workers",
            "3",
            "--peer-pool-size",
            "2",
            "--enable-nagle",
            "--event-write",
            "--send-queue-capacity",
            "512",
            "--join",
            "--root",
            "/ws",
        ]
    );
    let own = DeployRequest { election_profile: Some("slow".into()), ..request() };
    let l = command::deploy_local_in_dir(&own, "h", "/ws", Some("kv".into()), Some("fast".into()))
        .unwrap();
    assert_eq!(l.args[7], "slow");
    assert_eq!(command::resolve_config_path(&req), Some("/etc/kv.toml".into()));
    assert_eq!(command::resolve_config_path(&request()), None);
}

#[test]
fn server_ports_have_to_be_set_and_to_differ() {
    for (rest, rpc, text) in [
        (0, 9201, "rest_port and rpc_port must be non-zero"),
        (9101, 0, "rest_port and rpc_port must be non-zero"),
        (9101, 9101, "rest_port and rpc_port must differ"),
    ] {
        let req = DeployRequest { rest_port: rest, rpc_port: rpc, ..request() };
        let e = command::deploy_local(&req, "h", Some("kv".into()), None).unwrap_err();
        assert_eq!(validation(e), ("port".to_string(), text.to_string()));
    }
    let e = command::deploy_local(&request(), "h", None, None).unwrap_err();
    assert_eq!(
        validation(e).1,
        "could not locate crowdb-kv-server binary; set $CROWDB_KV_SERVER_BIN"
    );
}

#[test]
fn started_servers_are_reported() {
    let l = command::deploy_local(&request(), "h", Some("kv".into()), None).unwrap();
    let d = command::server_started(&request(), &l, Some(42)).unwrap();
    assert_eq!(d.server_id, "kv-1");
    assert_eq!(d.mgmt_url, "http://h:9101");
    assert_eq!(d.rpc_url, "http://h:9201");
    assert_eq!(d.pid, 42);
    let e = command::server_started(&request(), &l, None).unwrap_err();
    assert_eq!(validation(e), ("pid".to_string(), "spawned child has no pid".to_string()));
    assert_eq!(command::output_name("kv-1"), "kv-1.stdout.log");
    assert_eq!(command::pid_output_name("kv-1", 42), "kv-1-42.out.log");
}

#[test]
fn remote_servers_are_started_in_the_background() {
    let req = DeployRequest { config: Some("/etc/kv.toml".into()), ..request() };
    assert_eq!(
        command::remote_start_command(&req, "/opt/kv"),
        "nohup /opt/kv --config /etc/kv.toml --root /tmp/crowdb-kv-server-9101 \
         --management-addr 127.0.0.1 --management-port 9101 --ports 9201 \
         >/tmp/crowdb-kv-server.9101.out 2>/tmp/crowdb-kv-server.9101.err </dev/null & echo $!"
    );
    assert!(command::remote_start_command(&request(), "kv").starts_with("nohup kv --root /tmp/"));
}

#[test]
fn disk_database_command_line() {
    let req = DiskdbDeployRequest {
        metrics_interval: Some(2),
        rpc_workers: Some(4),
        kv_connections: Some(8),
        kv_client_rpc_workers: Some(1),
        ..diskdb_request()
    };
    let l = command::deploy_diskdb_local(
        &req,
        "10.0.0.2",
        "/c.toml",
        "/logs",
        Some("0.0.0.0:7002".into()),
        5000,
    );
    assert_eq!(
        l.args,
        vec![
            "--config",
            "/c.toml",
            "--log-dir",
            "/logs",
            "--metrics-interval",
            "2",
            "--rpc-workers",
            "4",
            "--kv-connections",
            "8",
            "--kv-client-rpc-workers",
            "1",
            "--listen-addr",
            "10.0.0.2:7001",
            "--http-addr",
            "10.0.0.2:7002",
            "--rpc-listen-addr",
            "10.0.0.2:7003",
        ]
    );
    assert_eq!(l.mgmt_url, "http://10.0.0.2:7002");
    assert_eq!(l.endpoint, "http://10.0.0.2:7003");
    let l = command::deploy_diskdb_local(&req, "h", "c", "l", Some("http://0.0.0.0:1".into()), 5000);
    assert_eq!(l.mgmt_url, "http://h:1");
    let l = command::deploy_diskdb_local(&req, "h", "c", "l", None, 5000);
    assert_eq!(l.mgmt_url, "http://h:5000");
}

#[test]
fn disk_database_binary() {
    let req = diskdb_request();
    assert_eq!(
        command::diskdb_binary(&req, Some("/ws/diskdb".into()), None).unwrap(),
        DiskdbBinary::Staged("/ws/diskdb".into())
    );
    assert_eq!(
        command::diskdb_binary(&req, None, Some("/bin/diskdb".into())).unwrap(),
        DiskdbBinary::ToStage("/bin/diskdb".into())
    );
    assert_eq!(
        validation(command::diskdb_binary(&req, None, None).unwrap_err()).1,
        "could not locate crowdb-diskdb binary; set $CROWDB_DISKDB_BIN"
    );
    let no_port = DiskdbDeployRequest { http_port: 0, ..diskdb_request() };
    assert_eq!(
        validation(command::diskdb_binary(&no_port, None, None).unwrap_err()).1,
        "listen_port, http_port, and rpc_port must all be non-zero"
    );
}

#[test]
fn chunk_database_command_line() {
    let req = chunkdb_request();
    assert_eq!(command::chunkdb_binary(&req, Some("/bin/c".into())).unwrap(), "/bin/c");
    match command::chunkdb_binary(&req, None).unwrap_err() {
        Error::NotFound { kind, id } => {
            assert_eq!(kind, "binary");
            assert_eq!(id, "crowdb-chunkdb (set CROWDB_CHUNKDB_BIN)");
        }
        other => panic!("unexpected error {other:?}"),
    }
    let same = ChunkdbDeployRequest { rpc_port: 9301, ..chunkdb_request() };
    assert_eq!(
        validation(command::chunkdb_binary(&same, None).unwrap_err()).1,
        "chunkdb HTTP and RPC ports must be non-zero and distinct"
    );
    let l = command::deploy_chunkdb_local(&req, "h", "/c.toml", "/logs");
    assert_eq!(
        l.args,
        vec![
            "--config",
            "/c.toml",
            "--log-dir",
            "/logs",
            "--rpc-workers",
            "4",
            "--metrics-interval",
            "2",
        ]
    );
    assert_eq!(l.mgmt_url, "http://h:9301");
    assert_eq!(l.endpoint, "http://h:9302");
    let d = command::database_started(Database::Chunkdb, "chunkdb-1", &l, Some(5)).unwrap();
    assert_eq!((d.server_id.as_str(), d.endpoint.as_str(), d.pid), ("chunkdb-1", "http://h:9302", 5));
    assert_eq!(
        validation(command::database_started(Database::Chunkdb, "c", &l, None).unwrap_err()).1,
        "spawned ChunkDB child has no pid"
    );
    assert_eq!(
        validation(command::database_started(Database::Diskdb, "c", &l, None).unwrap_err()).1,
        "spawned child has no pid"
    );
}

#[test]
fn disk_database_configuration() {
    assert_eq!(
        config_text::resolve_diskdb_config(&diskdb_request(), 9101),
        "[server]\nlisten_addr = \"0.0.0.0:7001\"\nhttp_listen_addr = \"0.0.0.0:7002\"\n\
         rpc_listen_addr = \"0.0.0.0:7003\"\n\
         kv_server_mgmt_seeds = [\"http://127.0.0.1:9101\"]\n"
    );
    let req = DiskdbDeployRequest {
        instance_id: Some(201),
        kv_server_mgmt_seeds: vec!["http://a:1".into(), "http://b:2".into()],
        ..diskdb_request()
    };
    assert_eq!(
        config_text::resolve_diskdb_config(&req, 9101),
        "[server]\nlisten_addr = \"0.0.0.0:7001\"\nhttp_listen_addr = \"0.0.0.0:7002\"\n\
         rpc_listen_addr = \"0.0.0.0:7003\"\ninstance_id = \"201\"\n\
         kv_server_mgmt_seeds = [\"http://a:1\", \"http://b:2\"]\n"
    );
    assert!(!config_text::diskdb_config_needed(true, &vec![]));
    assert!(config_text::diskdb_config_needed(true, &vec!["http://a:1".into()]));
    assert!(config_text::diskdb_config_needed(false, &vec![]));
}

#[test]
fn chunk_database_configuration_quotes_its_seeds() {
    assert_eq!(
        config_text::chunkdb_config_text(&chunkdb_request(), "h"),
        "[server]\nhttp_listen_addr = \"h:9301\"\nrpc_listen_addr = \"h:9302\"\n\
         instance_id = \"301\"\n\
         kv_server_mgmt_seeds = [\"http://a:1\", \"say \\\"hi\\\"\\\\\"]\n\
         keepalive_interval_secs = 1\nkv_pool_size = 3\nkv_rpc_workers = 2\n\
         diskdb_pool_size = 1\ndiskdb_rpc_workers = 5\n\n\
         [topology]\nrefresh_interval_secs = 1\n\n\
         [range_guard]\nallow_all_when_empty = false\n\n\
         [lifecycle]\ncache_capacity = 10000\nsweep_chunk_lock_interval_secs = 60\n\
         lock_hold_warn_threshold_ms = 1000\n\n\
         [placement]\nallow_unsafe_ec = true\n"
    );
    let safe = ChunkdbDeployRequest { allow_unsafe_ec: false, ..chunkdb_request() };
    assert!(config_text::chunkdb_config_with(&safe, "h", "").ends_with("allow_unsafe_ec = false\n"));
}

#[test]
fn waits_look_until_the_deadline() {
    let w = wait::wait_for_ready(1_000, 500);
    assert_eq!(w, Wait { deadline: 1_500, interval: 10_000_000 });
    assert_eq!(w.next(WaitEvent::Time(1_499)), WaitStep::Probe);
    assert_eq!(w.next(WaitEvent::Probed(false)), WaitStep::Pause(10_000_000));
    assert_eq!(w.next(WaitEvent::Probed(true)), WaitStep::Ready);
    assert_eq!(w.next(WaitEvent::Time(1_500)), WaitStep::TimedOut);
    assert_eq!(wait::wait_for_leader(0, 1).interval, 25_000_000);
    assert_eq!(wait::wait_for_diskdb_ready(0, 1).interval, 50_000_000);
}

#[test]
fn polls_look_once_more_at_the_deadline() {
    let p = Poll::new(100, 50, 7);
    assert_eq!(p.looked(false, 149), PollStep::Pause(7));
    assert_eq!(p.looked(true, 150), PollStep::Found);
    assert_eq!(p.looked(false, 150), PollStep::TimedOut);
}

#[test]
fn groups_without_leader_are_not_ready() {
    let groups = vec![
        GroupStatus { group_id: 1, leader_id: 0 },
        GroupStatus { group_id: 2, leader_id: 7 },
        GroupStatus { group_id: 1, leader_id: 9 },
    ];
    assert!(!wait::leader_elected(&groups, 1));
    assert!(wait::leader_elected(&groups, 2));
    assert!(!wait::leader_elected(&groups, 3));
}

#[test]
fn waiting_errors_say_what_was_waited_for() {
    let text = |e: Error| match e {
        Error::UpstreamRpc { node_id, status } => (node_id, status),
        other => panic!("unexpected error {other:?}"),
    };
    assert_eq!(
        text(wait::no_leader_error("u", 3, 4, 30_000_000_000)).1,
        "group 4 in store 3 did not elect a leader within 30s"
    );
    assert_eq!(
        text(wait::no_leader_error("u", 3, 4, 1_500_000)).1,
        "group 4 in store 3 did not elect a leader within 1.5ms"
    );
    assert_eq!(
        text(wait::client_error("u", "no TLS")),
        ("u".to_string(), "client build failed: no TLS".to_string())
    );
    assert_eq!(wait::health_url("http://h:1"), "http://h:1/health");
}

#[test]
fn servers_that_do_not_become_ready_are_io_errors() {
    let io = |text: &str| Error::Io(text.to_string());
    assert_eq!(wait::not_ready_error(), io("did not become healthy within timeout"));
    assert_eq!(
        wait::unhealthy_error(2_000_000_000, 9, true, "a\nb\n"),
        io("did not become healthy within 2s (pid=9, alive=true)\n--- log tail ---\nb\na")
    );
    assert_eq!(
        wait::unhealthy_error_after("30s", 9, false, ""),
        io("did not become healthy within 30s (pid=9, alive=false)\n--- log tail ---\n")
    );
    assert_eq!(
        wait::exited_error(9, "exit status: 1", ""),
        io("DiskDB child exited before readiness (pid=9, status=exit status: 1)\n--- log tail ---\n")
    );
    assert_eq!(wait::readiness_client_error("no TLS"), io("client build failed: no TLS"));
}

#[test]
fn log_tails_hold_twenty_lines_the_last_one_first() {
    let log: String = (1..=25).map(|i| format!("line {i}\n")).collect();
    let tail = wait::diskdb_log_tail(&log);
    let lines: Vec<&str> = tail.split('\n').collect();
    assert_eq!(lines.len(), 20);
    assert_eq!(lines[0], "line 25");
    assert_eq!(lines[19], "line 6");
    assert_eq!(wait::diskdb_log_tail(""), "");
}

#[test]
fn zombies_are_not_alive() {
    assert!(wait::process_is_alive(Some("12 (a b) S 1 12")));
    assert!(wait::process_is_alive(Some("12 (odd) name) R 1")));
    assert!(!wait::process_is_alive(Some("12 (a b) Z 1 12")));
    assert!(!wait::process_is_alive(Some("12 (a b)")));
    assert!(!wait::process_is_alive(Some("")));
    assert!(!wait::process_is_alive(None));
    assert!(wait::process_is_alive_by_ps(Some("Ss+\n")));
    assert!(!wait::process_is_alive_by_ps(Some(" Z+\n")));
    assert!(!wait::process_is_alive_by_ps(Some("\n")));
    assert!(!wait::process_is_alive_by_ps(None));
}

#[test]
fn processes_that_end_when_asked_are_not_killed() {
    let mut s = wait::stop_pid(7);
    assert_eq!(s.timeout, 15_000_000_000);
    assert_eq!(s.at(0), StopStep::SendTerm);
    s.asked(true, 100);
    assert_eq!(s.at(200), StopStep::Look);
    assert_eq!(s.looked(true), StopStep::Pause(10_000_000));
    assert_eq!(s.at(300), StopStep::Look);
    assert_eq!(s.looked(false), StopStep::Finished(true));
    assert_eq!(s.at(400), StopStep::Finished(true));
}

#[test]
fn processes_that_do_not_end_are_killed() {
    let mut s = wait::stop_pid_with_timeout(7, 1_000);
    s.asked(true, 0);
    assert_eq!(s.at(999), StopStep::Look);
    assert_eq!(s.at(1_000), StopStep::SendKill);
    s.killed(1_000);
    assert_eq!(s.phase, StopPhase::Killed { deadline: 2_000_001_000 });
    assert_eq!(s.at(1_001), StopStep::Look);
    assert_eq!(s.looked(true), StopStep::Pause(10_000_000));
    assert_eq!(s.at(2_000_001_000), StopStep::Finished(false));
    let mut gone = StopProcess { pid: 7, timeout: 5, phase: StopPhase::Asking };
    gone.asked(false, 0);
    assert_eq!(gone.at(0), StopStep::Finished(false));
}
