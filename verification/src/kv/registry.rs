//! The registry of service instances. Each instance keeps a record under its
//! service and id and renews it; a record that is not renewed expires.

use std::sync::Arc;

use vstd::prelude::*;

#[allow(unused_imports)]
use crate::lists;
#[allow(unused_imports)]
use crate::text;
use crate::text::decimal_text;

verus! {

/// The store and group that hold the registry.
pub const G0_STORE: u64 = 0;

pub const G0_GROUP: u64 = 0;

/// How long a record lives, in milliseconds: three heartbeats.
pub const DEFAULT_TTL_MS: u64 = 15_000;

/// The usage of a disk group, as its owner reports it.
#[derive(Debug, Clone, PartialEq, Eq)]
pub struct DiskGroupUsageSummary {
    pub json: String,
}

#[derive(Debug, Clone, PartialEq, Eq)]
pub struct DiskdbExtra {
    pub owned_dg_ids: Vec<u64>,
    pub group_usages: Vec<DiskGroupUsageSummary>,
}

/// A group that a server hosts.
#[derive(Debug, Clone, Copy, PartialEq, Eq, Structural)]
pub struct HostedGroup {
    pub store_id: u64,
    pub group_id: u64,
}

#[derive(Debug, Clone, PartialEq, Eq)]
pub struct KvServerExtra {
    pub hosted_stores: Vec<u64>,
    pub hosted_groups: Vec<HostedGroup>,
    pub health: String,
    pub data_root: String,
}

/// What an instance says beyond its endpoint.
#[derive(Debug, Clone, PartialEq, Eq)]
pub struct ServiceExtra {
    pub diskdb: Option<DiskdbExtra>,
    pub kv_server: Option<KvServerExtra>,
}

/// The record of an instance.
#[derive(Debug, Clone, PartialEq, Eq)]
pub struct InstanceValue {
    pub instance_id: u64,
    pub rpc_endpoint: String,
    pub last_heartbeat_ms: u64,
    pub extra: Option<ServiceExtra>,
}

/// A record of the registry could not be read.
#[derive(Debug, Clone, PartialEq, Eq)]
pub enum RegistryError {
    SysdataDecode { key: String, reason: String },
}

impl RegistryError {
    pub open spec fn is_decode(self, key: Seq<char>, reason: Seq<char>) -> bool {
        self matches RegistryError::SysdataDecode { key: k, reason: r } && k@ == key && r@ == reason
    }
}

/// The prefix of the keys of a service's instances.
pub open spec fn service_prefix(service: Seq<char>) -> Seq<char> {
    "/srv/"@ + service + "/"@
}

/// The key of an instance.
pub open spec fn instance_path(service: Seq<char>, instance_id: u64) -> Seq<char> {
    service_prefix(service) + text::decimal(instance_id as nat)
}

/// Different instances of a service have different keys.
pub proof fn lemma_instance_paths_differ(service: Seq<char>, a: u64, b: u64)
    requires
        instance_path(service, a) == instance_path(service, b),
    ensures
        a == b,
{
    let n = service_prefix(service).len() as int;
    assert(instance_path(service, a).skip(n) =~= text::decimal(a as nat));
    assert(instance_path(service, b).skip(n) =~= text::decimal(b as nat));
    text::lemma_decimal_injective(a as nat, b as nat);
}

pub fn text_prefix_for_service(service: &str) -> (s: String)
    ensures
        s@ == service_prefix(service@),
{
    let mut s = "/srv/".to_owned();
    s.append(service);
    s.append("/");
    s
}

pub fn to_path(service: &str, instance_id: u64) -> (s: String)
    ensures
        s@ == instance_path(service@, instance_id),
{
    let mut s = text_prefix_for_service(service);
    s.append(decimal_text(instance_id).as_str());
    s
}

/// Access to the registry through a shared client `K` of the store.
#[derive(Debug)]
pub struct ServiceRegistryClient<K> {
    kv: Arc<K>,
}

impl<K> ServiceRegistryClient<K> {
    pub closed spec fn store_client(self) -> K {
        *self.kv
    }

    pub fn new(kv: K) -> (c: Self)
        ensures
            c.store_client() == kv,
    {
        ServiceRegistryClient { kv: Arc::new(kv) }
    }

    pub fn from_shared(kv: Arc<K>) -> (c: Self)
        ensures
            c.store_client() == *kv,
    {
        ServiceRegistryClient { kv }
    }

    pub fn kv(&self) -> (k: &K)
        ensures
            *k == self.store_client(),
    {
        &*self.kv
    }
}

/// The record that an instance puts down at `now_ms`. Registering and renewing
/// both write the whole record.
pub fn register_value(
    instance_id: u64,
    rpc_endpoint: &str,
    now_ms: u64,
    extra: ServiceExtra,
) -> (v: InstanceValue)
    ensures
        v.instance_id == instance_id,
        v.rpc_endpoint@ == rpc_endpoint@,
        v.last_heartbeat_ms == now_ms,
        v.extra == Some(extra),
{
    InstanceValue {
        instance_id,
        rpc_endpoint: rpc_endpoint.to_owned(),
        last_heartbeat_ms: now_ms,
        extra: Some(extra),
    }
}

/// What the owner of disk groups says.
pub fn disk_group_extra(owned_dg_ids: Vec<u64>, group_usages: Vec<DiskGroupUsageSummary>) -> (e:
    ServiceExtra)
    ensures
        e == (ServiceExtra {
            diskdb: Some(DiskdbExtra { owned_dg_ids, group_usages }),
            kv_server: None,
        }),
{
    ServiceExtra { diskdb: Some(DiskdbExtra { owned_dg_ids, group_usages }), kv_server: None }
}

/// What a key-value server says.
pub fn kv_server_extra(
    hosted_stores: Vec<u64>,
    hosted_groups: Vec<HostedGroup>,
    health: &str,
    data_root: &str,
) -> (e: ServiceExtra)
    ensures
        e.diskdb is None,
        e.kv_server matches Some(k) && k.hosted_stores == hosted_stores && k.hosted_groups
            == hosted_groups && k.health@ == health@ && k.data_root@ == data_root@,
{
    ServiceExtra {
        diskdb: None,
        kv_server: Some(
            KvServerExtra {
                hosted_stores,
                hosted_groups,
                health: health.to_owned(),
                data_root: data_root.to_owned(),
            },
        ),
    }
}

/// What an instance of the chunk database says: nothing beyond its endpoint.
pub fn chunkdb_extra() -> (e: ServiceExtra)
    ensures
        e.diskdb is None,
        e.kv_server is None,
{
    ServiceExtra { diskdb: None, kv_server: None }
}

/// A record, and the key that it is put down under.
#[derive(Debug, Clone, PartialEq, Eq)]
pub struct Registration {
    pub path: String,
    pub value: InstanceValue,
}

impl Registration {
    /// The record of an instance of a service, as it is at `now_ms`.
    pub open spec fn is_of(
        self,
        service: Seq<char>,
        instance_id: u64,
        rpc_endpoint: Seq<char>,
        now_ms: u64,
    ) -> bool {
        &&& self.path@ == instance_path(service, instance_id)
        &&& self.value.instance_id == instance_id
        &&& self.value.rpc_endpoint@ == rpc_endpoint
        &&& self.value.last_heartbeat_ms == now_ms
    }
}

/// The record of an instance of any service. A heartbeat puts the same down
/// again, with the time that it is then.
pub fn register(
    service: &str,
    instance_id: u64,
    rpc_endpoint: &str,
    now_ms: u64,
    extra: ServiceExtra,
) -> (r: Registration)
    ensures
        r.is_of(service@, instance_id, rpc_endpoint@, now_ms),
        r.value.extra == Some(extra),
{
    Registration {
        path: to_path(service, instance_id),
        value: register_value(instance_id, rpc_endpoint, now_ms, extra),
    }
}

/// The record of a disk database.
pub fn register_diskdb(
    instance_id: u64,
    rpc_endpoint: &str,
    now_ms: u64,
    owned_dg_ids: Vec<u64>,
    group_usages: Vec<DiskGroupUsageSummary>,
) -> (r: Registration)
    ensures
        r.is_of("diskdb"@, instance_id, rpc_endpoint@, now_ms),
        r.value.extra == Some(
            ServiceExtra {
                diskdb: Some(DiskdbExtra { owned_dg_ids, group_usages }),
                kv_server: None,
            },
        ),
{
    register(
        "diskdb",
        instance_id,
        rpc_endpoint,
        now_ms,
        disk_group_extra(owned_dg_ids, group_usages),
    )
}

/// The record of a disk service.
pub fn heartbeat_diskio(
    instance_id: u64,
    rpc_endpoint: &str,
    now_ms: u64,
    owned_dg_ids: Vec<u64>,
    group_usages: Vec<DiskGroupUsageSummary>,
) -> (r: Registration)
    ensures
        r.is_of("diskio"@, instance_id, rpc_endpoint@, now_ms),
        r.value.extra == Some(
            ServiceExtra {
                diskdb: Some(DiskdbExtra { owned_dg_ids, group_usages }),
                kv_server: None,
            },
        ),
{
    register(
        "diskio",
        instance_id,
        rpc_endpoint,
        now_ms,
        disk_group_extra(owned_dg_ids, group_usages),
    )
}

/// The record of a key-value server.
pub fn register_kv_server(
    instance_id: u64,
    rpc_endpoint: &str,
    now_ms: u64,
    extra: ServiceExtra,
) -> (r: Registration)
    ensures
        r.is_of("kv-server"@, instance_id, rpc_endpoint@, now_ms),
        r.value.extra == Some(extra),
{
    register("kv-server", instance_id, rpc_endpoint, now_ms, extra)
}

/// The record of a chunk database.
pub fn register_chunkdb(instance_id: u64, rpc_endpoint: &str, now_ms: u64) -> (r: Registration)
    ensures
        r.is_of("chunkdb"@, instance_id, rpc_endpoint@, now_ms),
        r.value.extra matches Some(e) && e.diskdb is None && e.kv_server is None,
{
    register("chunkdb", instance_id, rpc_endpoint, now_ms, chunkdb_extra())
}

/// A single record that was read, as far as it could be decoded.
pub fn read_instance(path: &str, value: Option<Result<InstanceValue, String>>) -> (r: Result<
    Option<InstanceValue>,
    RegistryError,
>)
    ensures
        match value {
            None => r == Ok::<Option<InstanceValue>, RegistryError>(None),
            Some(Ok(v)) => r == Ok::<Option<InstanceValue>, RegistryError>(Some(v)),
            Some(Err(t)) => r matches Err(e) && e.is_decode(path@, t@),
        },
{
    match value {
        None => Ok(None),
        Some(Ok(v)) => Ok(Some(v)),
        Some(Err(reason)) => Err(RegistryError::SysdataDecode { key: path.to_owned(), reason }),
    }
}

/// One record of a scan: its key, and its value as far as it could be
/// decoded.
#[derive(Debug, PartialEq, Eq)]
pub struct ScanItem {
    pub key: Vec<u8>,
    pub value: Result<InstanceValue, String>,
}

/// The text of the error that `std::str::from_utf8` gives for bytes that are
/// not UTF-8.
pub uninterp spec fn utf8_error(bytes: Seq<u8>) -> Seq<char>;

/// `std::str::from_utf8` decodes bytes that are UTF-8, and describes the fault
/// of others.
#[verifier::external_body]
fn utf8_text(bytes: &Vec<u8>) -> (r: Result<String, String>)
    ensures
        match r {
            Ok(s) => vstd::utf8::valid_utf8(bytes@) && s@ == vstd::utf8::decode_utf8(bytes@),
            Err(t) => !vstd::utf8::valid_utf8(bytes@) && t@ == utf8_error(bytes@),
        },
{
    match std::str::from_utf8(bytes) {
        Ok(s) => Ok(s.to_owned()),
        Err(e) => Err(e.to_string()),
    }
}

/// A record that cannot be used.
pub open spec fn broken(item: ScanItem) -> bool {
    !vstd::utf8::valid_utf8(item.key@) || item.value is Err
}

/// Why a record cannot be used: its key, told by the scan's prefix, or its
/// value.
pub open spec fn is_item_error(item: ScanItem, prefix: Seq<char>, e: RegistryError) -> bool {
    if !vstd::utf8::valid_utf8(item.key@) {
        e.is_decode(prefix, utf8_error(item.key@))
    } else {
        item.value matches Err(t) && e.is_decode(vstd::utf8::decode_utf8(item.key@), t@)
    }
}

/// A record renewed at `cutoff` or later.
pub open spec fn live(item: ScanItem, cutoff: u64) -> bool {
    item.value matches Ok(v) && v.last_heartbeat_ms >= cutoff
}

/// The live records, each with its instance's id.
pub open spec fn live_records(items: Seq<ScanItem>, cutoff: u64) -> Seq<(u64, InstanceValue)> {
    items.filter(|x: ScanItem| live(x, cutoff)).map_values(
        |x: ScanItem| (x.value->Ok_0.instance_id, x.value->Ok_0),
    )
}

/// Two pages have together the live records of the whole: how the records are
/// cut into pages does not matter.
pub proof fn lemma_pages_add_up(a: Seq<ScanItem>, b: Seq<ScanItem>, cutoff: u64)
    ensures
        live_records(a + b, cutoff) == live_records(a, cutoff) + live_records(b, cutoff),
    decreases b.len(),
{
    let p = |x: ScanItem| live(x, cutoff);
    reveal(Seq::filter);
    if b.len() == 0 {
        assert(a + b =~= a);
    } else {
        lemma_pages_add_up(a, b.drop_last(), cutoff);
        assert((a + b).drop_last() =~= a + b.drop_last());
        assert((a + b).last() == b.last());
        let f = |x: ScanItem| (x.value->Ok_0.instance_id, x.value->Ok_0);
        let whole = (a + b).drop_last().filter(p);
        let rest = b.drop_last().filter(p);
        assert(whole.push(b.last()).map_values(f) =~= whole.map_values(f).push(f(b.last())));
        assert(rest.push(b.last()).map_values(f) =~= rest.map_values(f).push(f(b.last())));
    }
    assert(live_records(a + b, cutoff) =~= live_records(a, cutoff) + live_records(b, cutoff));
}

/// The records of a service, page by page.
pub struct InstanceScan {
    pub prefix: String,
    pub cutoff: u64,
    /// The key behind which the next page starts.
    pub start_after: Vec<u8>,
    pub found: Vec<(u64, InstanceValue)>,
}

impl InstanceScan {
    /// A scan of all instances of `service` that were renewed in the last
    /// `ttl_ms` milliseconds.
    pub fn new(service: &str, now_ms: u64, ttl_ms: u64) -> (s: Self)
        ensures
            s.prefix@ == service_prefix(service@),
            s.cutoff == (if now_ms >= ttl_ms {
                now_ms - ttl_ms
            } else {
                0
            }),
            s.start_after@ == Seq::<u8>::empty(),
            s.found@ == Seq::<(u64, InstanceValue)>::empty(),
    {
        InstanceScan {
            prefix: text_prefix_for_service(service),
            cutoff: now_ms.saturating_sub(ttl_ms),
            start_after: Vec::new(),
            found: Vec::new(),
        }
    }

    /// Takes in one page; the result is whether another one follows. A record
    /// that cannot be used ends the scan.
    pub fn absorb(&mut self, items: Vec<ScanItem>, truncated: bool) -> (r: Result<
        bool,
        RegistryError,
    >)
        ensures
            final(self).prefix == old(self).prefix,
            final(self).cutoff == old(self).cutoff,
            match lists::first_index(items@, |x: ScanItem| broken(x)) {
                Some(i) => {
                    &&& r matches Err(e) && is_item_error(items@[i], old(self).prefix@, e)
                    &&& final(self).found@ == old(self).found@ + live_records(
                        items@.take(i),
                        old(self).cutoff,
                    )
                    &&& final(self).start_after@ == old(self).start_after@
                },
                None => {
                    &&& r == Ok::<bool, RegistryError>(truncated && items@.len() > 0)
                    &&& final(self).found@ == old(self).found@ + live_records(
                        items@,
                        old(self).cutoff,
                    )
                    &&& final(self).start_after@ == (if truncated && items@.len() > 0 {
                        items@.last().key@
                    } else {
                        old(self).start_after@
                    })
                },
            },
    {
        let ghost all = items@;
        let ghost bad = |x: ScanItem| broken(x);
        let ghost before = self.found@;
        let ghost cutoff = self.cutoff;
        let ghost p = |x: ScanItem| live(x, cutoff);
        let ghost g = |x: ScanItem| (x.value->Ok_0.instance_id, x.value->Ok_0);
        let n: usize = items.len();
        let mut last_key: Vec<u8> = Vec::new();
        proof {
            reveal(Seq::filter);
            assert(before + live_records(all.take(0), cutoff) =~= before);
        }
        for item in it: items
            invariant
                it.seq() == all,
                all == items@,
                n == all.len(),
                bad == (|x: ScanItem| broken(x)),
                p == (|x: ScanItem| live(x, cutoff)),
                g == (|x: ScanItem| (x.value->Ok_0.instance_id, x.value->Ok_0)),
                self.cutoff == cutoff,
                cutoff == old(self).cutoff,
                before == old(self).found@,
                self.prefix == old(self).prefix,
                self.start_after == old(self).start_after,
                self.found@ == before + live_records(all.take(it.index() as int), cutoff),
                forall|j: int| 0 <= j < it.index() ==> !bad(#[trigger] all[j]),
                it.index() > 0 ==> last_key@ == all[it.index() - 1].key@,
        {
            let ghost i = it.index() as int;
            assert(item == all[i]);
            let path = match utf8_text(&item.key) {
                Ok(s) => s,
                Err(reason) => {
                    proof {
                        lists::lemma_is_first_index(all, bad, i);
                    }
                    return Err(
                        RegistryError::SysdataDecode { key: self.prefix.clone(), reason },
                    );
                },
            };
            match item.value {
                Err(reason) => {
                    proof {
                        lists::lemma_is_first_index(all, bad, i);
                    }
                    return Err(RegistryError::SysdataDecode { key: path, reason });
                },
                Ok(value) => {
                    proof {
                        let t = all.take(i);
                        assert(all.take(i + 1) =~= t.push(all[i]));
                        t.lemma_filter_push(all[i], p);
                        assert(t.filter(p).push(all[i]).map_values(g) =~= t.filter(p).map_values(
                            g,
                        ).push(g(all[i])));
                        assert(before + live_records(t, cutoff).push(g(all[i])) =~= (before
                            + live_records(t, cutoff)).push(g(all[i])));
                    }
                    if value.last_heartbeat_ms >= self.cutoff {
                        self.found.push((value.instance_id, value));
                    }
                    last_key = item.key;
                },
            }
        }
        proof {
            assert(all.take(n as int) =~= all);
            lists::lemma_no_first_index(all, bad);
        }
        if truncated && n > 0 {
            self.start_after = last_key;
            Ok(true)
        } else {
            Ok(false)
        }
    }
}

/// Instances are kept in group 0 of store 0, and count as live for fifteen
/// seconds unless said otherwise.
pub proof fn lemma_registry_numbers()
    ensures
        G0_STORE == 0,
        G0_GROUP == 0,
        DEFAULT_TTL_MS == 15_000,
{
}

/// A service's instances stand under `/srv/`, its name and a slash, each under
/// its own number.
pub proof fn lemma_instance_paths(service: Seq<char>, instance_id: u64)
    ensures
        service_prefix(service) == "/srv/"@ + service + "/"@,
        instance_path(service, instance_id) == "/srv/"@ + service + "/"@ + text::decimal(
            instance_id as nat,
        ),
        service_prefix(service).is_prefix_of(instance_path(service, instance_id)),
{
    let p = service_prefix(service);
    assert(instance_path(service, instance_id).subrange(0, p.len() as int) =~= p);
}

/// A record that could not be read is reported by its key and the reason.
pub proof fn lemma_decode_errors(key: String, reason: String, e: RegistryError)
    ensures
        (RegistryError::SysdataDecode { key, reason }).is_decode(key@, reason@),
        e.is_decode(key@, reason@) ==> (e matches RegistryError::SysdataDecode { key: k, reason: r }
            && k@ == key@ && r@ == reason@),
{
}

/// A record cannot be used where its key is no text or its value could not be
/// read, and that is the reason given: the key goes first.
pub proof fn lemma_broken_records(item: ScanItem, prefix: Seq<char>, e: RegistryError)
    ensures
        broken(item) <==> !vstd::utf8::valid_utf8(item.key@) || item.value is Err,
        !vstd::utf8::valid_utf8(item.key@) ==> (is_item_error(item, prefix, e) <==> e.is_decode(
            prefix,
            utf8_error(item.key@),
        )),
        vstd::utf8::valid_utf8(item.key@) && item.value is Err ==> (is_item_error(item, prefix, e)
            <==> e.is_decode(vstd::utf8::decode_utf8(item.key@), item.value->Err_0@)),
        vstd::utf8::valid_utf8(item.key@) && item.value is Ok ==> !is_item_error(item, prefix, e),
{
}

/// The live records are those renewed at the cutoff or later, in their order,
/// each with its own id.
pub proof fn lemma_live_in_order(items: Seq<ScanItem>, item: ScanItem, cutoff: u64)
    ensures
        live_records(Seq::empty(), cutoff).len() == 0,
        item.value matches Ok(v) && v.last_heartbeat_ms >= cutoff ==> live_records(
            items.push(item),
            cutoff,
        ) == live_records(items, cutoff).push(
            (item.value->Ok_0.instance_id, item.value->Ok_0),
        ),
        (item.value matches Ok(v) ==> v.last_heartbeat_ms < cutoff) ==> live_records(
            items.push(item),
            cutoff,
        ) == live_records(items, cutoff),
{
    reveal(Seq::filter);
    assert(items.push(item).drop_last() =~= items);
    if live(item, cutoff) {
        assert(live_records(items.push(item), cutoff) =~= live_records(items, cutoff).push(
            (item.value->Ok_0.instance_id, item.value->Ok_0),
        ));
    }
}

/// The record of an instance stands under its own key and carries its id, where
/// it is called, and the time at which it was renewed.
pub proof fn lemma_record_of_instance(
    r: Registration,
    service: Seq<char>,
    instance_id: u64,
    rpc_endpoint: Seq<char>,
    now_ms: u64,
)
    requires
        r.is_of(service, instance_id, rpc_endpoint, now_ms),
    ensures
        r.path@ == "/srv/"@ + service + "/"@ + text::decimal(instance_id as nat),
        r.value.instance_id == instance_id,
        r.value.rpc_endpoint@ == rpc_endpoint,
        r.value.last_heartbeat_ms == now_ms,
{
}

} // verus!
