//! The configuration files that are written for the databases.

use vstd::prelude::*;

use crate::console::lifecycle::command::address_text;
#[allow(unused_imports)]
use crate::console::lifecycle::command;
use crate::console::lifecycle::{ChunkdbDeployRequest, DiskdbDeployRequest};
#[allow(unused_imports)]
use crate::scan;
use crate::scan::join;
#[allow(unused_imports)]
use crate::text;
use crate::text::decimal_text;

verus! {

/// `s` in double quotes, as it is.
pub open spec fn in_quotes(s: Seq<char>) -> Seq<char> {
    "\""@ + s + "\""@
}

/// The texts in double quotes, with a comma between each two.
pub open spec fn quoted_list(seeds: Seq<Seq<char>>) -> Seq<char> {
    scan::joined(seeds.map_values(|s: Seq<char>| in_quotes(s)), ", "@)
}

fn quoted_list_text(seeds: &Vec<String>) -> (s: String)
    ensures
        s@ == quoted_list(scan::texts(seeds@)),
{
    let mut parts: Vec<String> = Vec::new();
    let mut i: usize = 0;
    while i < seeds.len()
        invariant
            i <= seeds@.len(),
            parts@.len() == i,
            forall|j: int| 0 <= j < i ==> (#[trigger] parts@[j])@ == in_quotes(seeds@[j]@),
        decreases seeds@.len() - i,
    {
        let mut t = "\"".to_owned();
        t.append(seeds[i].as_str());
        t.append("\"");
        parts.push(t);
        i = i + 1;
    }
    assert(scan::texts(parts@) =~= scan::texts(seeds@).map_values(
        |s: Seq<char>| in_quotes(s),
    ));
    join(&parts, ", ")
}

/// Whether a disk database's configuration file has to be written: it is not
/// there, or it may name servers other than the ones given.
pub fn diskdb_config_needed(exists: bool, seeds: &Vec<String>) -> (r: bool)
    ensures
        r == !(exists && seeds@.len() == 0),
{
    !(exists && seeds.len() == 0)
}

/// The configuration file of a disk database. Where no servers are given, the
/// one on this host at `default_mgmt_port` is named.
pub fn resolve_diskdb_config(req: &DiskdbDeployRequest, default_mgmt_port: u16) -> (s: String)
    ensures
        s@ == "[server]\nlisten_addr = \"0.0.0.0:"@ + text::decimal(req.listen_port as nat)
            + "\"\nhttp_listen_addr = \"0.0.0.0:"@ + text::decimal(req.http_port as nat)
            + "\"\nrpc_listen_addr = \"0.0.0.0:"@ + text::decimal(req.rpc_port as nat) + "\"\n"@ + (
        match req.instance_id {
            Some(id) => "instance_id = \""@ + text::decimal(id as nat) + "\"\n"@,
            None => Seq::<char>::empty(),
        }) + "kv_server_mgmt_seeds = ["@ + (if req.kv_server_mgmt_seeds@.len() == 0 {
            "\"http://127.0.0.1:"@ + text::decimal(default_mgmt_port as nat) + "\""@
        } else {
            quoted_list(scan::texts(req.kv_server_mgmt_seeds@))
        }) + "]\n"@,
{
    let seeds = if req.kv_server_mgmt_seeds.len() == 0 {
        let mut t = "\"http://127.0.0.1:".to_owned();
        t.append(decimal_text(default_mgmt_port as u64).as_str());
        t.append("\"");
        t
    } else {
        quoted_list_text(&req.kv_server_mgmt_seeds)
    };
    let instance = match req.instance_id {
        Some(id) => {
            let mut t = "instance_id = \"".to_owned();
            t.append(decimal_text(id).as_str());
            t.append("\"\n");
            t
        },
        None => String::new(),
    };
    assert(req.instance_id is None ==> instance@ =~= Seq::<char>::empty());
    let mut s = "[server]\nlisten_addr = \"0.0.0.0:".to_owned();
    s.append(decimal_text(req.listen_port as u64).as_str());
    s.append("\"\nhttp_listen_addr = \"0.0.0.0:");
    s.append(decimal_text(req.http_port as u64).as_str());
    s.append("\"\nrpc_listen_addr = \"0.0.0.0:");
    s.append(decimal_text(req.rpc_port as u64).as_str());
    s.append("\"\n");
    s.append(instance.as_str());
    s.append("kv_server_mgmt_seeds = [");
    s.append(seeds.as_str());
    s.append("]\n");
    s
}

/// A text as the `Debug` formatting of `str` shows it: in double quotes, with
/// quotes, backslashes and characters that do not print escaped.
pub uninterp spec fn debug_quoted(s: Seq<char>) -> Seq<char>;

/// The `Debug` formatting of `str`.
#[verifier::external_body]
fn debug_text(s: &str) -> (r: String)
    ensures
        r@ == debug_quoted(s@),
{
    format!("{s:?}")
}

/// The texts as `Debug` shows them, with a comma between each two.
pub open spec fn debug_list(seeds: Seq<Seq<char>>) -> Seq<char> {
    scan::joined(seeds.map_values(|s: Seq<char>| debug_quoted(s)), ", "@)
}

fn debug_list_text(seeds: &Vec<String>) -> (s: String)
    ensures
        s@ == debug_list(scan::texts(seeds@)),
{
    let mut parts: Vec<String> = Vec::new();
    let mut i: usize = 0;
    while i < seeds.len()
        invariant
            i <= seeds@.len(),
            parts@.len() == i,
            forall|j: int| 0 <= j < i ==> (#[trigger] parts@[j])@ == debug_quoted(seeds@[j]@),
        decreases seeds@.len() - i,
    {
        parts.push(debug_text(seeds[i].as_str()));
        i = i + 1;
    }
    assert(scan::texts(parts@) =~= scan::texts(seeds@).map_values(
        |s: Seq<char>| debug_quoted(s),
    ));
    join(&parts, ", ")
}

/// A number, or what stands in for it.
pub open spec fn number_or(v: Option<nat>, default: nat) -> Seq<char> {
    text::decimal(
        match v {
            Some(n) => n,
            None => default,
        },
    )
}

fn u32_or(v: Option<u32>, default: u32) -> (s: String)
    ensures
        s@ == number_or(command::of_u32(v), default as nat),
{
    match v {
        Some(n) => decimal_text(n as u64),
        None => decimal_text(default as u64),
    }
}

fn usize_or(v: Option<usize>, default: u32) -> (s: String)
    ensures
        s@ == number_or(command::of_usize(v), default as nat),
{
    match v {
        Some(n) => decimal_text(n as u64),
        None => decimal_text(default as u64),
    }
}

/// The part of a chunk database's configuration file that does not depend on
/// the request.
pub open spec fn chunkdb_sections() -> Seq<char> {
    "\n\n[topology]\nrefresh_interval_secs = 1\n\n[range_guard]\nallow_all_when_empty = false\n\n[lifecycle]\ncache_capacity = 10000\nsweep_chunk_lock_interval_secs = 60\nlock_hold_warn_threshold_ms = 1000\n\n[placement]\nallow_unsafe_ec = "@
}

/// The configuration file of a chunk database, around the list `seeds` of
/// servers. Where numbers of connections and workers are not given, one
/// connection and two workers are used.
pub open spec fn chunkdb_config(
    req: ChunkdbDeployRequest,
    host: Seq<char>,
    seeds: Seq<char>,
) -> Seq<char> {
    "[server]\nhttp_listen_addr = \""@ + command::address(host, req.http_port)
        + "\"\nrpc_listen_addr = \""@ + command::address(host, req.rpc_port)
        + "\"\ninstance_id = \""@ + text::decimal(req.instance_id as nat)
        + "\"\nkv_server_mgmt_seeds = ["@ + seeds
        + "]\nkeepalive_interval_secs = 1\nkv_pool_size = "@ + number_or(
        command::of_usize(req.kv_connections),
        1,
    ) + "\nkv_rpc_workers = "@ + number_or(command::of_u32(req.kv_client_rpc_workers), 2)
        + "\ndiskdb_pool_size = "@ + number_or(command::of_usize(req.diskdb_connections), 1)
        + "\ndiskdb_rpc_workers = "@ + number_or(command::of_u32(req.diskdb_client_rpc_workers), 2)
        + chunkdb_sections() + (if req.allow_unsafe_ec {
        "true"@
    } else {
        "false"@
    }) + "\n"@
}

/// The configuration file of a chunk database, around a list of servers.
pub fn chunkdb_config_with(req: &ChunkdbDeployRequest, host: &str, seeds: &str) -> (s: String)
    ensures
        s@ == chunkdb_config(*req, host@, seeds@),
{
    let mut s = "[server]\nhttp_listen_addr = \"".to_owned();
    s.append(address_text(host, req.http_port).as_str());
    s.append("\"\nrpc_listen_addr = \"");
    s.append(address_text(host, req.rpc_port).as_str());
    s.append("\"\ninstance_id = \"");
    s.append(decimal_text(req.instance_id).as_str());
    s.append("\"\nkv_server_mgmt_seeds = [");
    s.append(seeds);
    s.append("]\nkeepalive_interval_secs = 1\nkv_pool_size = ");
    s.append(usize_or(req.kv_connections, 1).as_str());
    s.append("\nkv_rpc_workers = ");
    s.append(u32_or(req.kv_client_rpc_workers, 2).as_str());
    s.append("\ndiskdb_pool_size = ");
    s.append(usize_or(req.diskdb_connections, 1).as_str());
    s.append("\ndiskdb_rpc_workers = ");
    s.append(u32_or(req.diskdb_client_rpc_workers, 2).as_str());
    s.append(
        "\n\n[topology]\nrefresh_interval_secs = 1\n\n[range_guard]\nallow_all_when_empty = false\n\n[lifecycle]\ncache_capacity = 10000\nsweep_chunk_lock_interval_secs = 60\nlock_hold_warn_threshold_ms = 1000\n\n[placement]\nallow_unsafe_ec = ",
    );
    s.append(
        if req.allow_unsafe_ec {
            "true"
        } else {
            "false"
        },
    );
    s.append("\n");
    s
}

/// The configuration file of a chunk database.
pub fn chunkdb_config_text(req: &ChunkdbDeployRequest, host: &str) -> (s: String)
    ensures
        s@ == chunkdb_config(
            *req,
            host@,
            debug_list(scan::texts(req.kv_server_mgmt_seeds@)),
        ),
{
    let seeds = debug_list_text(&req.kv_server_mgmt_seeds);
    chunkdb_config_with(req, host, seeds.as_str())
}

/// A list of texts is written with each in its own quotes, in order, and with a
/// comma between each two.
pub proof fn lemma_quoted_lists(seeds: Seq<Seq<char>>, more: Seq<char>)
    ensures
        in_quotes(more) == seq!['"'] + more + seq!['"'],
        quoted_list(Seq::empty()).len() == 0,
        quoted_list(seq![more]) == in_quotes(more),
        seeds.len() > 0 ==> quoted_list(seeds.push(more)) == quoted_list(seeds) + ", "@ + in_quotes(
            more,
        ),
        debug_list(Seq::empty()).len() == 0,
        debug_list(seq![more]) == debug_quoted(more),
        seeds.len() > 0 ==> debug_list(seeds.push(more)) == debug_list(seeds) + ", "@
            + debug_quoted(more),
{
    reveal_strlit("\"");
    assert("\""@ =~= seq!['"']);
    let q = |s: Seq<char>| in_quotes(s);
    let d = |s: Seq<char>| debug_quoted(s);
    let none = Seq::<Seq<char>>::empty();
    assert(none.map_values(q) =~= Seq::empty());
    assert(none.map_values(d) =~= Seq::empty());
    assert(seq![more].map_values(q) =~= seq![in_quotes(more)]);
    assert(seq![more].map_values(d) =~= seq![debug_quoted(more)]);
    assert(seeds.push(more).map_values(q) =~= seeds.map_values(q).push(in_quotes(more)));
    assert(seeds.push(more).map_values(d) =~= seeds.map_values(d).push(debug_quoted(more)));
    scan::lemma_joined(seeds.map_values(q), in_quotes(more), ", "@);
    scan::lemma_joined(seeds.map_values(d), debug_quoted(more), ", "@);
}

/// A number that is given is written; else the one that stands in for it.
pub proof fn lemma_numbers_or(n: nat, default: nat)
    ensures
        number_or(Some(n), default) == text::decimal(n),
        number_or(None, default) == text::decimal(default),
{
}

/// The configuration of a chunk database gives every setting its own value:
/// the two addresses, the instance, the servers, one connection and two workers
/// where no other numbers are given, and whether unsafe placement is allowed.
pub proof fn lemma_chunkdb_settings(
    req: ChunkdbDeployRequest,
    host: Seq<char>,
    seeds: Seq<char>,
)
    ensures
        chunkdb_config(req, host, seeds) == "[server]\nhttp_listen_addr = \""@ + (host + ":"@
            + text::decimal(req.http_port as nat)) + "\"\nrpc_listen_addr = \""@ + (host + ":"@
            + text::decimal(req.rpc_port as nat)) + "\"\ninstance_id = \""@ + text::decimal(
            req.instance_id as nat,
        ) + "\"\nkv_server_mgmt_seeds = ["@ + seeds
            + "]\nkeepalive_interval_secs = 1\nkv_pool_size = "@ + text::decimal(
            match req.kv_connections {
                Some(n) => n as nat,
                None => 1,
            },
        ) + "\nkv_rpc_workers = "@ + text::decimal(
            match req.kv_client_rpc_workers {
                Some(n) => n as nat,
                None => 2,
            },
        ) + "\ndiskdb_pool_size = "@ + text::decimal(
            match req.diskdb_connections {
                Some(n) => n as nat,
                None => 1,
            },
        ) + "\ndiskdb_rpc_workers = "@ + text::decimal(
            match req.diskdb_client_rpc_workers {
                Some(n) => n as nat,
                None => 2,
            },
        )
            + "\n\n[topology]\nrefresh_interval_secs = 1\n\n[range_guard]\nallow_all_when_empty = false\n\n[lifecycle]\ncache_capacity = 10000\nsweep_chunk_lock_interval_secs = 60\nlock_hold_warn_threshold_ms = 1000\n\n[placement]\nallow_unsafe_ec = "@
            + (if req.allow_unsafe_ec {
            "true"@
        } else {
            "false"@
        }) + "\n"@,
{
}

} // verus!
