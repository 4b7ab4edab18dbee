//! The replicated state machine: the command set, its effect on the applied
//! state, and the replay laws. Commands are applied strictly in log order;
//! every handler is idempotent under replay, and history-row ids are a
//! deterministic function of the applied log, so replicas converge.

use vstd::prelude::*;
use vstd::string::StringExecFns;

use crate::cache::{spec_cache_set, CacheEntryModel, LocalCache, TTL_NONE};
use crate::config_store::{
    spec_append_history, spec_delete_config, spec_delete_namespace_configs, spec_entry_wf,
    spec_has_config, spec_has_history, spec_history_row, spec_insert_config, ConfigEntry,
    ConfigEntryModel, ConfigStore,
};
use crate::discovery::{spec_mark_up_instance, InstanceModel, InstanceStatus, ServiceInstance};
use crate::namespace::{
    spec_delete_namespace, spec_has_namespace, spec_upsert_namespace, Namespace, NamespaceModel,
    NamespaceStore,
};
use crate::seqs::{lemma_filter_idempotent, lemma_filter_push};
use crate::services::{
    spec_delete_service, spec_has_service, spec_upsert_service, Service, ServiceModel,
    ServiceStore,
};
use crate::text::str_eq;
use crate::value::{deep_copy, value_model, ConfigValue, ValueModel};

verus! {

/// One service instance of one namespace, as mirrored by the replicated
/// state machine. Instances are not durable: a restarted node re-learns them
/// from heartbeats.
pub struct NsInstance {
    pub namespace_id: String,
    pub instance: ServiceInstance,
}

/// Mathematical model of a mirrored instance.
#[verifier::ext_equal]
pub ghost struct NsInstanceModel {
    pub namespace_id: Seq<char>,
    pub instance: InstanceModel,
}

impl View for NsInstance {
    type V = NsInstanceModel;

    open spec fn view(&self) -> NsInstanceModel {
        NsInstanceModel { namespace_id: self.namespace_id@, instance: self.instance@ }
    }
}

/// The view of the instance mirror.
pub open spec fn ns_instances_view(s: Seq<NsInstance>) -> Seq<NsInstanceModel> {
    s.map_values(|x: NsInstance| x@)
}

/// Whether a mirrored instance carries the given key.
pub open spec fn spec_inst_key(x: NsInstanceModel, ns: Seq<char>, sid: Seq<char>, iid: Seq<char>)
    -> bool {
    x.namespace_id == ns && x.instance.service_id == sid && x.instance.id == iid
}

/// The mirror after an instance registers: any previous instance under the
/// same key is dropped, the fresh one is appended.
pub open spec fn spec_instances_register(
    xs: Seq<NsInstanceModel>,
    ns: Seq<char>,
    inst: InstanceModel,
) -> Seq<NsInstanceModel> {
    xs.filter(|x: NsInstanceModel| !spec_inst_key(x, ns, inst.service_id, inst.id)).push(
        NsInstanceModel { namespace_id: ns, instance: inst },
    )
}

/// The mirror after an instance deregisters.
pub open spec fn spec_instances_deregister(
    xs: Seq<NsInstanceModel>,
    ns: Seq<char>,
    sid: Seq<char>,
    iid: Seq<char>,
) -> Seq<NsInstanceModel> {
    xs.filter(|x: NsInstanceModel| !spec_inst_key(x, ns, sid, iid))
}

/// The mirror after a whole service deregisters.
pub open spec fn spec_instances_dereg_service(
    xs: Seq<NsInstanceModel>,
    ns: Seq<char>,
    sid: Seq<char>,
) -> Seq<NsInstanceModel> {
    xs.filter(
        |x: NsInstanceModel| !(x.namespace_id == ns && x.instance.service_id == sid),
    )
}

/// The mirror after an applied heartbeat: the addressed instance is `Up`
/// with its miss counter cleared.
pub open spec fn spec_instances_mark_up(
    xs: Seq<NsInstanceModel>,
    ns: Seq<char>,
    sid: Seq<char>,
    iid: Seq<char>,
) -> Seq<NsInstanceModel> {
    xs.map_values(
        |x: NsInstanceModel|
            if spec_inst_key(x, ns, sid, iid) {
                NsInstanceModel { instance: spec_mark_up_instance(x.instance), ..x }
            } else {
                x
            },
    )
}

/// Whether the key-value table holds a key.
pub open spec fn spec_kv_has(kv: Seq<(Seq<char>, Seq<char>)>, k: Seq<char>) -> bool {
    exists|j: int| 0 <= j < kv.len() && (#[trigger] kv[j]).0 == k
}

/// The key-value table after a set: the key's pair is replaced or appended.
pub open spec fn spec_kv_set(kv: Seq<(Seq<char>, Seq<char>)>, k: Seq<char>, v: Seq<char>) -> Seq<
    (Seq<char>, Seq<char>),
> {
    if spec_kv_has(kv, k) {
        kv.map_values(
            |p: (Seq<char>, Seq<char>)|
                if p.0 == k {
                    (p.0, v)
                } else {
                    p
                },
        )
    } else {
        kv.push((k, v))
    }
}

/// The key-value table after a delete.
pub open spec fn spec_kv_remove(kv: Seq<(Seq<char>, Seq<char>)>, k: Seq<char>) -> Seq<
    (Seq<char>, Seq<char>),
> {
    kv.filter(|p: (Seq<char>, Seq<char>)| p.0 != k)
}

/// The first value stored under a key.
pub open spec fn spec_kv_lookup(kv: Seq<(Seq<char>, Seq<char>)>, k: Seq<char>) -> Option<
    Seq<char>,
>
    decreases kv.len(),
{
    if kv.len() == 0 {
        None
    } else if kv[0].0 == k {
        Some(kv[0].1)
    } else {
        spec_kv_lookup(kv.drop_first(), k)
    }
}

/// A replicated command. The variant set is a wire contract: new variants
/// may be added, existing ones are never reordered or renumbered.
pub enum Command {
    Put { key: String, value: String },
    Delete { key: String },
    SetConfig { entry: ConfigEntry },
    UpdateConfig { entry: ConfigEntry },
    DeleteConfig { namespace_id: String, id: String },
    UpsertNamespace { namespace: Namespace },
    DeleteNamespace { id: String },
    RegisterService { service: Service },
    DeregisterService { namespace_id: String, service_id: String },
    RegisterServiceInstance { namespace_id: String, instance: ServiceInstance },
    DeregisterServiceInstance { namespace_id: String, service_id: String, instance_id: String },
    Heartbeat { namespace_id: String, service_id: String, instance_id: String },
    CacheWrite { key: String, value: ConfigValue, ttl: Option<u64> },
}

/// Mathematical model of a command.
#[verifier::ext_equal]
pub ghost enum CommandModel {
    Put { key: Seq<char>, value: Seq<char> },
    Delete { key: Seq<char> },
    SetConfig { entry: ConfigEntryModel },
    UpdateConfig { entry: ConfigEntryModel },
    DeleteConfig { namespace_id: Seq<char>, id: Seq<char> },
    UpsertNamespace { namespace: NamespaceModel },
    DeleteNamespace { id: Seq<char> },
    RegisterService { service: ServiceModel },
    DeregisterService { namespace_id: Seq<char>, service_id: Seq<char> },
    RegisterServiceInstance { namespace_id: Seq<char>, instance: InstanceModel },
    DeregisterServiceInstance {
        namespace_id: Seq<char>,
        service_id: Seq<char>,
        instance_id: Seq<char>,
    },
    Heartbeat { namespace_id: Seq<char>, service_id: Seq<char>, instance_id: Seq<char> },
    CacheWrite { key: Seq<char>, value: ValueModel, ttl: Option<int> },
}

impl View for Command {
    type V = CommandModel;

    open spec fn view(&self) -> CommandModel {
        match self {
            Command::Put { key, value } => CommandModel::Put { key: key@, value: value@ },
            Command::Delete { key } => CommandModel::Delete { key: key@ },
            Command::SetConfig { entry } => CommandModel::SetConfig { entry: entry@ },
            Command::UpdateConfig { entry } => CommandModel::UpdateConfig { entry: entry@ },
            Command::DeleteConfig { namespace_id, id } => CommandModel::DeleteConfig {
                namespace_id: namespace_id@,
                id: id@,
            },
            Command::UpsertNamespace { namespace } => CommandModel::UpsertNamespace {
                namespace: namespace@,
            },
            Command::DeleteNamespace { id } => CommandModel::DeleteNamespace { id: id@ },
            Command::RegisterService { service } => CommandModel::RegisterService {
                service: service@,
            },
            Command::DeregisterService { namespace_id, service_id } => {
                CommandModel::DeregisterService {
                    namespace_id: namespace_id@,
                    service_id: service_id@,
                }
            },
            Command::RegisterServiceInstance { namespace_id, instance } => {
                CommandModel::RegisterServiceInstance {
                    namespace_id: namespace_id@,
                    instance: instance@,
                }
            },
            Command::DeregisterServiceInstance { namespace_id, service_id, instance_id } => {
                CommandModel::DeregisterServiceInstance {
                    namespace_id: namespace_id@,
                    service_id: service_id@,
                    instance_id: instance_id@,
                }
            },
            Command::Heartbeat { namespace_id, service_id, instance_id } => {
                CommandModel::Heartbeat {
                    namespace_id: namespace_id@,
                    service_id: service_id@,
                    instance_id: instance_id@,
                }
            },
            Command::CacheWrite { key, value, ttl } => CommandModel::CacheWrite {
                key: key@,
                value: value_model(*value),
                ttl: match ttl {
                    Some(t) => Some(*t as int),
                    None => None,
                },
            },
        }
    }
}

/// The machine-limit bounds a command must satisfy to be applied: history
/// ids must fit their row type and cache expiries their field type.
pub open spec fn spec_cmd_wf(c: CommandModel) -> bool {
    match c {
        CommandModel::SetConfig { entry } => spec_entry_wf(entry),
        CommandModel::UpdateConfig { entry } => spec_entry_wf(entry),
        CommandModel::CacheWrite { ttl, .. } => match ttl {
            Some(t) => 0 <= t <= i64::MAX,
            None => true,
        },
        CommandModel::RegisterServiceInstance { instance, .. } => instance.last_heartbeat
            <= i64::MAX,
        _ => true,
    }
}

/// The service row an instance registration makes durable when its service
/// is not yet known: empty metadata, timestamped by the instance's own
/// registration time so that every replica writes the identical row.
pub open spec fn spec_auto_service(ns: Seq<char>, inst: InstanceModel) -> ServiceModel {
    ServiceModel {
        service_id: inst.service_id,
        namespace_id: ns,
        meta: Seq::empty(),
        create_time: inst.last_heartbeat,
        update_time: inst.last_heartbeat,
    }
}

/// Mathematical model of the whole applied state.
#[verifier::ext_equal]
pub ghost struct StateModel {
    pub kv: Seq<(Seq<char>, Seq<char>)>,
    pub namespaces: Seq<NamespaceModel>,
    pub configs: Seq<ConfigEntryModel>,
    pub history: Seq<ConfigEntryModel>,
    pub services: Seq<ServiceModel>,
    pub instances: Seq<NsInstanceModel>,
    pub cache: Seq<CacheEntryModel>,
}

/// The effect of one applied command. Commands that address an unknown
/// namespace are skipped, deleting the reserved namespace is refused, and
/// everything else writes its target rows absolutely, so replaying a command
/// leaves the state unchanged. `now` stamps only local cache entries.
pub open spec fn spec_apply(s: StateModel, c: CommandModel, now: int) -> StateModel {
    match c {
        CommandModel::Put { key, value } => StateModel { kv: spec_kv_set(s.kv, key, value), ..s },
        CommandModel::Delete { key } => StateModel { kv: spec_kv_remove(s.kv, key), ..s },
        CommandModel::SetConfig { entry } => StateModel {
            configs: spec_insert_config(s.configs, entry),
            history: spec_append_history(s.history, spec_history_row(entry)),
            ..s
        },
        CommandModel::UpdateConfig { entry } => StateModel {
            configs: spec_insert_config(s.configs, entry),
            history: spec_append_history(s.history, spec_history_row(entry)),
            ..s
        },
        CommandModel::DeleteConfig { namespace_id, id } => StateModel {
            configs: spec_delete_config(s.configs, namespace_id, id),
            history: spec_delete_config(s.history, namespace_id, id),
            ..s
        },
        CommandModel::UpsertNamespace { namespace } => StateModel {
            namespaces: spec_upsert_namespace(s.namespaces, namespace),
            ..s
        },
        CommandModel::DeleteNamespace { id } => {
            if id == "public"@ {
                s
            } else {
                StateModel {
                    namespaces: spec_delete_namespace(s.namespaces, id),
                    configs: spec_delete_namespace_configs(s.configs, id),
                    ..s
                }
            }
        },
        CommandModel::RegisterService { service } => {
            if spec_has_namespace(s.namespaces, service.namespace_id) {
                StateModel { services: spec_upsert_service(s.services, service), ..s }
            } else {
                s
            }
        },
        CommandModel::DeregisterService { namespace_id, service_id } => {
            if spec_has_namespace(s.namespaces, namespace_id) {
                StateModel {
                    services: spec_delete_service(s.services, namespace_id, service_id),
                    instances: spec_instances_dereg_service(s.instances, namespace_id, service_id),
                    ..s
                }
            } else {
                s
            }
        },
        CommandModel::RegisterServiceInstance { namespace_id, instance } => {
            if spec_has_namespace(s.namespaces, namespace_id) {
                StateModel {
                    services: spec_upsert_service(
                        s.services,
                        spec_auto_service(namespace_id, instance),
                    ),
                    instances: spec_instances_register(s.instances, namespace_id, instance),
                    ..s
                }
            } else {
                s
            }
        },
        CommandModel::DeregisterServiceInstance { namespace_id, service_id, instance_id } => {
            if spec_has_namespace(s.namespaces, namespace_id) {
                StateModel {
                    instances: spec_instances_deregister(
                        s.instances,
                        namespace_id,
                        service_id,
                        instance_id,
                    ),
                    ..s
                }
            } else {
                s
            }
        },
        CommandModel::Heartbeat { namespace_id, service_id, instance_id } => {
            if spec_has_namespace(s.namespaces, namespace_id) {
                StateModel {
                    instances: spec_instances_mark_up(
                        s.instances,
                        namespace_id,
                        service_id,
                        instance_id,
                    ),
                    ..s
                }
            } else {
                s
            }
        },
        CommandModel::CacheWrite { key, value, ttl } => StateModel {
            cache: spec_cache_set(
                s.cache,
                CacheEntryModel {
                    k: key,
                    v: value,
                    ct: now,
                    ttl: match ttl {
                        Some(t) => t,
                        None => TTL_NONE as int,
                    },
                },
            ),
            ..s
        },
    }
}


/// Replaying a key-value set leaves the table unchanged.
proof fn lemma_kv_set_idem(kv: Seq<(Seq<char>, Seq<char>)>, k: Seq<char>, v: Seq<char>)
    ensures
        spec_kv_set(spec_kv_set(kv, k, v), k, v) == spec_kv_set(kv, k, v),
{
    let k1 = spec_kv_set(kv, k, v);
    if spec_kv_has(kv, k) {
        let j = choose|j: int| 0 <= j < kv.len() && (#[trigger] kv[j]).0 == k;
        assert(k1[j].0 == k);
        assert(spec_kv_has(k1, k));
        assert(spec_kv_set(k1, k, v) =~= k1);
    } else {
        assert(k1[kv.len() as int].0 == k);
        assert(spec_kv_has(k1, k));
        assert(spec_kv_set(k1, k, v) =~= k1);
    }
}

/// Replaying an applied config entry leaves the current rows unchanged.
proof fn lemma_insert_config_idem(cs: Seq<ConfigEntryModel>, e: ConfigEntryModel)
    ensures
        spec_insert_config(spec_insert_config(cs, e), e) == spec_insert_config(cs, e),
{
    let c1 = spec_insert_config(cs, e);
    if spec_has_config(cs, e.namespace_id, e.id) {
        let j = choose|j: int|
            0 <= j < cs.len() && (#[trigger] cs[j]).namespace_id == e.namespace_id && cs[j].id
                == e.id;
        assert(c1[j] == e);
        assert(spec_has_config(c1, e.namespace_id, e.id));
        assert(spec_insert_config(c1, e) =~= c1);
    } else {
        assert(c1 == seq![e] + cs);
        assert(c1[0] == e);
        assert(spec_has_config(c1, e.namespace_id, e.id));
        assert forall|g: int| 0 <= g < c1.len() implies spec_insert_config(c1, e)[g] == c1[g] by {
            if g > 0 {
                assert(c1[g] == cs[g - 1]);
            }
        }
        assert(spec_insert_config(c1, e) =~= c1);
    }
}

/// Replaying an applied history row leaves the history unchanged.
proof fn lemma_append_history_idem(hs: Seq<ConfigEntryModel>, h: ConfigEntryModel)
    ensures
        spec_append_history(spec_append_history(hs, h), h) == spec_append_history(hs, h),
{
    let h1 = spec_append_history(hs, h);
    if spec_has_history(hs, h.id_) {
        let j = choose|j: int| 0 <= j < hs.len() && (#[trigger] hs[j]).id_ == h.id_;
        assert(h1[j] == h);
        assert(spec_has_history(h1, h.id_));
        assert(spec_append_history(h1, h) =~= h1);
    } else {
        assert(h1 == seq![h] + hs);
        assert(h1[0] == h);
        assert(spec_has_history(h1, h.id_));
        assert forall|g: int| 0 <= g < h1.len() implies spec_append_history(h1, h)[g] == h1[g] by {
            if g > 0 {
                assert(h1[g] == hs[g - 1]);
            }
        }
        assert(spec_append_history(h1, h) =~= h1);
    }
}

/// Replaying a namespace upsert leaves the table unchanged.
proof fn lemma_upsert_namespace_idem(ns: Seq<NamespaceModel>, n: NamespaceModel)
    ensures
        spec_upsert_namespace(spec_upsert_namespace(ns, n), n) == spec_upsert_namespace(ns, n),
{
    let n1 = spec_upsert_namespace(ns, n);
    if spec_has_namespace(ns, n.id) {
        let j = choose|j: int| 0 <= j < ns.len() && (#[trigger] ns[j]).id == n.id;
        assert(n1[j].id == n.id);
        assert(spec_has_namespace(n1, n.id));
        assert forall|g: int| 0 <= g < n1.len() implies spec_upsert_namespace(n1, n)[g] == n1[g] by {
            if n1[g].id == n.id {
                assert(n1[g] == (NamespaceModel { create_time: ns[g].create_time, ..n }));
                assert(spec_upsert_namespace(n1, n)[g] == (NamespaceModel {
                    create_time: n1[g].create_time,
                    ..n
                }));
            }
        }
        assert(spec_upsert_namespace(n1, n) =~= n1);
    } else {
        assert(n1 == ns.push(n));
        assert(n1[ns.len() as int].id == n.id);
        assert(spec_has_namespace(n1, n.id));
        assert forall|g: int| 0 <= g < n1.len() implies spec_upsert_namespace(n1, n)[g] == n1[g] by {
            if g < ns.len() {
                assert(n1[g] == ns[g]);
            } else {
                assert(n1[g] == n);
                assert(spec_upsert_namespace(n1, n)[g] =~= n);
            }
        }
        assert(spec_upsert_namespace(n1, n) =~= n1);
    }
}

/// Replaying a service upsert leaves the table unchanged.
proof fn lemma_upsert_service_idem(ss: Seq<ServiceModel>, s: ServiceModel)
    ensures
        spec_upsert_service(spec_upsert_service(ss, s), s) == spec_upsert_service(ss, s),
{
    let s1 = spec_upsert_service(ss, s);
    if spec_has_service(ss, s.namespace_id, s.service_id) {
        let j = choose|j: int|
            0 <= j < ss.len() && (#[trigger] ss[j]).namespace_id == s.namespace_id
                && ss[j].service_id == s.service_id;
        assert(s1[j].namespace_id == s.namespace_id && s1[j].service_id == s.service_id);
        assert(spec_has_service(s1, s.namespace_id, s.service_id));
        assert forall|g: int| 0 <= g < s1.len() implies spec_upsert_service(s1, s)[g] == s1[g] by {
            if s1[g].namespace_id == s.namespace_id && s1[g].service_id == s.service_id {
                assert(s1[g] == (ServiceModel { create_time: ss[g].create_time, ..s }));
                assert(spec_upsert_service(s1, s)[g] == (ServiceModel {
                    create_time: s1[g].create_time,
                    ..s
                }));
            }
        }
        assert(spec_upsert_service(s1, s) =~= s1);
    } else {
        assert(s1 == ss.push(s));
        assert(s1[ss.len() as int].namespace_id == s.namespace_id);
        assert(spec_has_service(s1, s.namespace_id, s.service_id));
        assert forall|g: int| 0 <= g < s1.len() implies spec_upsert_service(s1, s)[g] == s1[g] by {
            if g < ss.len() {
                assert(s1[g] == ss[g]);
            } else {
                assert(s1[g] == s);
                assert(spec_upsert_service(s1, s)[g] =~= s);
            }
        }
        assert(spec_upsert_service(s1, s) =~= s1);
    }
}

/// Replaying a cache write overwrites the first write's entry.
proof fn lemma_cache_set_replay(cs: Seq<CacheEntryModel>, e1: CacheEntryModel, e2: CacheEntryModel)
    requires
        e1.k == e2.k,
    ensures
        spec_cache_set(spec_cache_set(cs, e1), e2) == spec_cache_set(cs, e2),
{
    let c1 = spec_cache_set(cs, e1);
    if crate::cache::spec_cache_has(cs, e1.k) {
        let j = choose|j: int| 0 <= j < cs.len() && (#[trigger] cs[j]).k == e1.k;
        assert(c1[j].k == e1.k);
        assert(crate::cache::spec_cache_has(c1, e2.k));
        assert forall|g: int| 0 <= g < c1.len() implies spec_cache_set(c1, e2)[g] == spec_cache_set(
            cs,
            e2,
        )[g] by {
            assert(c1[g].k == cs[g].k);
        }
        assert(spec_cache_set(c1, e2) =~= spec_cache_set(cs, e2));
    } else {
        assert(c1 == cs.push(e1));
        assert(c1[cs.len() as int].k == e2.k);
        assert(crate::cache::spec_cache_has(c1, e2.k));
        assert forall|g: int|
            0 <= g < c1.len() implies spec_cache_set(c1, e2)[g] == spec_cache_set(cs, e2)[g] by {
            if g < cs.len() {
                assert(c1[g] == cs[g]);
                assert(cs[g].k != e2.k);
                assert(spec_cache_set(cs, e2)[g] == cs[g]);
            } else {
                assert(c1[g] == e1);
                assert(spec_cache_set(c1, e2)[g] == e2);
                assert(spec_cache_set(cs, e2)[g] == e2);
            }
        }
        assert(spec_cache_set(c1, e2) =~= spec_cache_set(cs, e2));
    }
}

/// Replaying an instance registration leaves the mirror unchanged.
proof fn lemma_register_instance_idem(
    xs: Seq<NsInstanceModel>,
    ns: Seq<char>,
    inst: InstanceModel,
)
    ensures
        spec_instances_register(spec_instances_register(xs, ns, inst), ns, inst)
            == spec_instances_register(xs, ns, inst),
{
    broadcast use lemma_filter_idempotent, lemma_filter_push;

    let y = NsInstanceModel { namespace_id: ns, instance: inst };
    let r1 = spec_instances_register(xs, ns, inst);
    assert(spec_inst_key(y, ns, inst.service_id, inst.id));
    assert(spec_instances_register(r1, ns, inst) == r1);
}

/// Replaying an applied heartbeat leaves the mirror unchanged.
proof fn lemma_mark_up_idem(xs: Seq<NsInstanceModel>, ns: Seq<char>, sid: Seq<char>, iid: Seq<
    char,
>)
    ensures
        spec_instances_mark_up(spec_instances_mark_up(xs, ns, sid, iid), ns, sid, iid)
            == spec_instances_mark_up(xs, ns, sid, iid),
{
    let m1 = spec_instances_mark_up(xs, ns, sid, iid);
    assert forall|g: int|
        0 <= g < m1.len() implies spec_instances_mark_up(m1, ns, sid, iid)[g] == m1[g] by {
        if spec_inst_key(xs[g], ns, sid, iid) {
            assert(spec_inst_key(m1[g], ns, sid, iid));
            assert(spec_mark_up_instance(m1[g].instance) =~= m1[g].instance);
            assert(spec_instances_mark_up(m1, ns, sid, iid)[g] =~= m1[g]);
        }
    }
    assert(spec_instances_mark_up(m1, ns, sid, iid) =~= m1);
}

/// Replay idempotence, one entry at a time: every command handler is idempotent under
/// replay. Re-applying a committed command to a state that already reflects
/// it changes nothing: together with log-order apply this is what lets a
/// crashed node reload a snapshot and re-apply the log after it. The cache
/// timestamp is the replay's own, which the direct application also writes.
pub proof fn lemma_apply_replay_idempotent(s: StateModel, c: CommandModel, t1: int, t2: int)
    ensures
        spec_apply(spec_apply(s, c, t1), c, t2) == spec_apply(s, c, t2),
{
    broadcast use lemma_filter_idempotent, lemma_filter_push;

    let s1 = spec_apply(s, c, t1);
    match c {
        CommandModel::Put { key, value } => {
            lemma_kv_set_idem(s.kv, key, value);
            assert(spec_apply(s1, c, t2) =~= spec_apply(s, c, t2));
        },
        CommandModel::Delete { key } => {
            assert(spec_kv_remove(spec_kv_remove(s.kv, key), key) == spec_kv_remove(s.kv, key));
            assert(spec_apply(s1, c, t2) =~= spec_apply(s, c, t2));
        },
        CommandModel::SetConfig { entry } => {
            lemma_insert_config_idem(s.configs, entry);
            lemma_append_history_idem(s.history, spec_history_row(entry));
            assert(spec_apply(s1, c, t2) =~= spec_apply(s, c, t2));
        },
        CommandModel::UpdateConfig { entry } => {
            lemma_insert_config_idem(s.configs, entry);
            lemma_append_history_idem(s.history, spec_history_row(entry));
            assert(spec_apply(s1, c, t2) =~= spec_apply(s, c, t2));
        },
        CommandModel::DeleteConfig { namespace_id, id } => {
            assert(spec_delete_config(spec_delete_config(s.configs, namespace_id, id),
                namespace_id, id) == spec_delete_config(s.configs, namespace_id, id));
            assert(spec_delete_config(spec_delete_config(s.history, namespace_id, id),
                namespace_id, id) == spec_delete_config(s.history, namespace_id, id));
            assert(spec_apply(s1, c, t2) =~= spec_apply(s, c, t2));
        },
        CommandModel::UpsertNamespace { namespace } => {
            lemma_upsert_namespace_idem(s.namespaces, namespace);
            assert(spec_apply(s1, c, t2) =~= spec_apply(s, c, t2));
        },
        CommandModel::DeleteNamespace { id } => {
            if id == "public"@ {
            } else {
                assert(spec_delete_namespace(spec_delete_namespace(s.namespaces, id), id)
                    == spec_delete_namespace(s.namespaces, id));
                assert(spec_delete_namespace_configs(
                    spec_delete_namespace_configs(s.configs, id), id)
                    == spec_delete_namespace_configs(s.configs, id));
                assert(spec_apply(s1, c, t2) =~= spec_apply(s, c, t2));
            }
        },
        CommandModel::RegisterService { service } => {
            if spec_has_namespace(s.namespaces, service.namespace_id) {
                lemma_upsert_service_idem(s.services, service);
                assert(spec_apply(s1, c, t2) =~= spec_apply(s, c, t2));
            }
        },
        CommandModel::DeregisterService { namespace_id, service_id } => {
            if spec_has_namespace(s.namespaces, namespace_id) {
                assert(spec_delete_service(spec_delete_service(s.services, namespace_id,
                    service_id), namespace_id, service_id)
                    == spec_delete_service(s.services, namespace_id, service_id));
                assert(spec_instances_dereg_service(spec_instances_dereg_service(s.instances,
                    namespace_id, service_id), namespace_id, service_id)
                    == spec_instances_dereg_service(s.instances, namespace_id, service_id));
                assert(spec_apply(s1, c, t2) =~= spec_apply(s, c, t2));
            }
        },
        CommandModel::RegisterServiceInstance { namespace_id, instance } => {
            if spec_has_namespace(s.namespaces, namespace_id) {
                lemma_upsert_service_idem(s.services, spec_auto_service(namespace_id, instance));
                lemma_register_instance_idem(s.instances, namespace_id, instance);
                assert(spec_apply(s1, c, t2) =~= spec_apply(s, c, t2));
            }
        },
        CommandModel::DeregisterServiceInstance { namespace_id, service_id, instance_id } => {
            if spec_has_namespace(s.namespaces, namespace_id) {
                assert(spec_instances_deregister(spec_instances_deregister(s.instances,
                    namespace_id, service_id, instance_id), namespace_id, service_id, instance_id)
                    == spec_instances_deregister(s.instances, namespace_id, service_id,
                    instance_id));
                assert(spec_apply(s1, c, t2) =~= spec_apply(s, c, t2));
            }
        },
        CommandModel::Heartbeat { namespace_id, service_id, instance_id } => {
            if spec_has_namespace(s.namespaces, namespace_id) {
                lemma_mark_up_idem(s.instances, namespace_id, service_id, instance_id);
                assert(spec_apply(s1, c, t2) =~= spec_apply(s, c, t2));
            }
        },
        CommandModel::CacheWrite { key, value, ttl } => {
            let tt = match ttl {
                Some(t) => t,
                None => TTL_NONE as int,
            };
            lemma_cache_set_replay(
                s.cache,
                CacheEntryModel { k: key, v: value, ct: t1, ttl: tt },
                CacheEntryModel { k: key, v: value, ct: t2, ttl: tt },
            );
            assert(spec_apply(s1, c, t2) =~= spec_apply(s, c, t2));
        },
    }
}

/// The state after a prefix of committed commands, applied in log order.
pub open spec fn spec_apply_log(s: StateModel, cs: Seq<CommandModel>, now: int) -> StateModel
    decreases cs.len(),
{
    if cs.len() == 0 {
        s
    } else {
        spec_apply_log(spec_apply(s, cs[0], now), cs.drop_first(), now)
    }
}

/// Crash recovery applies a snapshot, then the log after it: splitting a log
/// at any point and applying the two parts in order gives the same state as
/// applying the whole log.
pub proof fn lemma_apply_log_append(
    s: StateModel,
    a: Seq<CommandModel>,
    b: Seq<CommandModel>,
    now: int,
)
    ensures
        spec_apply_log(s, a + b, now) == spec_apply_log(spec_apply_log(s, a, now), b, now),
    decreases a.len(),
{
    if a.len() == 0 {
        assert(a + b =~= b);
    } else {
        assert((a + b)[0] == a[0]);
        assert((a + b).drop_first() =~= a.drop_first() + b);
        lemma_apply_log_append(spec_apply(s, a[0], now), a.drop_first(), b, now);
    }
}

/// Whether a command writes a history row under the given id.
pub open spec fn spec_history_id_from(c: CommandModel, hid: int) -> bool {
    match c {
        CommandModel::SetConfig { entry } => hid == entry.id_ + entry.update_time,
        CommandModel::UpdateConfig { entry } => hid == entry.id_ + entry.update_time,
        _ => false,
    }
}

/// One applied command adds history rows only under its own deterministic id.
proof fn lemma_apply_history_sourced(s: StateModel, c: CommandModel, now: int)
    ensures
        forall|j: int|
            0 <= j < spec_apply(s, c, now).history.len() ==> spec_has_history(
                s.history,
                (#[trigger] spec_apply(s, c, now).history[j]).id_,
            ) || spec_history_id_from(c, spec_apply(s, c, now).history[j].id_),
{
    broadcast use vstd::seq_lib::group_filter_ensures;

    let hr = spec_apply(s, c, now).history;
    match c {
        CommandModel::SetConfig { entry } | CommandModel::UpdateConfig { entry } => {
            let h = spec_history_row(entry);
            assert forall|j: int|
                0 <= j < hr.len() implies spec_has_history(s.history, (#[trigger] hr[j]).id_)
                || spec_history_id_from(c, hr[j].id_) by {
                if spec_has_history(s.history, h.id_) {
                    assert(hr[j] == if s.history[j].id_ == h.id_ {
                        h
                    } else {
                        s.history[j]
                    });
                } else {
                    if j == 0 {
                        assert(hr[j] == h);
                    } else {
                        assert(hr[j] == s.history[j - 1]);
                    }
                }
            }
        },
        CommandModel::DeleteConfig { namespace_id, id } => {
            assert forall|j: int|
                0 <= j < hr.len() implies spec_has_history(s.history, (#[trigger] hr[j]).id_)
                || spec_history_id_from(c, hr[j].id_) by {
                assert(s.history.contains(hr[j])) by {
                    s.history.lemma_filter_contains_rev(
                        |m: ConfigEntryModel| !(m.namespace_id == namespace_id && m.id == id),
                        hr[j],
                    );
                    assert(hr.contains(hr[j]));
                }
                let jj = choose|jj: int| 0 <= jj < s.history.len() && s.history[jj] == hr[j];
                assert(s.history[jj].id_ == hr[j].id_);
            }
        },
        _ => {
            assert(hr == s.history);
        },
    }
}

/// History ids are a deterministic function of the applied log. Every
/// history row of a state reached from a fresh state machine carries the id
/// `base id + update time` of some config entry in the prefix; since the
/// applied state is a pure function of the prefix, replicas that applied
/// identical prefixes hold identical history rows.
pub proof fn lemma_history_ids_deterministic(s: StateModel, cs: Seq<CommandModel>, now: int)
    requires
        s.history.len() == 0,
    ensures
        forall|j: int|
            0 <= j < spec_apply_log(s, cs, now).history.len() ==> exists|k: int|
                0 <= k < cs.len() && spec_history_id_from(
                    #[trigger] cs[k],
                    (#[trigger] spec_apply_log(s, cs, now).history[j]).id_,
                ),
{
    lemma_log_history_sourced(s, cs, now);
    assert forall|j: int|
        0 <= j < spec_apply_log(s, cs, now).history.len() implies exists|k: int|
        0 <= k < cs.len() && spec_history_id_from(
            #[trigger] cs[k],
            (#[trigger] spec_apply_log(s, cs, now).history[j]).id_,
        ) by {
        assert(!spec_has_history(s.history, spec_apply_log(s, cs, now).history[j].id_));
    }
}

/// Every history row of a state reached over a log either was there before
/// or carries the deterministic id of some config entry in the log.
proof fn lemma_log_history_sourced(s: StateModel, cs: Seq<CommandModel>, now: int)
    ensures
        forall|j: int|
            0 <= j < spec_apply_log(s, cs, now).history.len() ==> spec_has_history(
                s.history,
                (#[trigger] spec_apply_log(s, cs, now).history[j]).id_,
            ) || exists|k: int|
                0 <= k < cs.len() && spec_history_id_from(
                    #[trigger] cs[k],
                    spec_apply_log(s, cs, now).history[j].id_,
                ),
    decreases cs.len(),
{
    if cs.len() > 0 {
        let s1 = spec_apply(s, cs[0], now);
        lemma_apply_history_sourced(s, cs[0], now);
        lemma_log_history_sourced(s1, cs.drop_first(), now);
        let hr = spec_apply_log(s, cs, now).history;
        assert(spec_apply_log(s, cs, now) == spec_apply_log(s1, cs.drop_first(), now));
        assert forall|j: int|
            0 <= j < hr.len() implies spec_has_history(s.history, (#[trigger] hr[j]).id_) || exists|
            k: int,
        | 0 <= k < cs.len() && spec_history_id_from(#[trigger] cs[k], hr[j].id_) by {
            if spec_has_history(s1.history, hr[j].id_) {
                if !spec_has_history(s.history, hr[j].id_) {
                    assert(spec_history_id_from(cs[0], hr[j].id_));
                }
            } else {
                let k = choose|k: int|
                    0 <= k < cs.drop_first().len() && spec_history_id_from(
                        #[trigger] cs.drop_first()[k],
                        hr[j].id_,
                    );
                assert(cs.drop_first()[k] == cs[k + 1]);
                assert(spec_history_id_from(cs[k + 1], hr[j].id_));
            }
        }
    }
}



/// Decides a namespace deletion before replication: the reserved namespace
/// is refused with the error envelope — code one and a message naming it as
/// reserved — and nothing is replicated; any other id becomes the delete
/// command for the cluster.
pub fn plan_delete_namespace(id: &str) -> (r: Result<Command, crate::envelope::Res<()>>)
    ensures
        id@ == "public"@ ==> (match r {
            Err(e) => e.code == crate::envelope::ERROR_CODE && e.data is None && e.msg@
                == "public is the system's default reserved namespace and cannot be deleted."@
                && e.msg@.subrange(31, 39) == "reserved"@,
            Ok(_) => false,
        }),
        id@ != "public"@ ==> (match r {
            Ok(c) => c@ == (CommandModel::DeleteNamespace { id: id@ }),
            Err(_) => false,
        }),
{
    match crate::namespace::check_delete_namespace(id) {
        Ok(_) => Ok(Command::DeleteNamespace { id: id.to_owned() }),
        Err(_) => {
            let msg = "public is the system's default reserved namespace and cannot be deleted.";
            proof {
                reveal_strlit(
                    "public is the system's default reserved namespace and cannot be deleted.",
                );
                reveal_strlit("reserved");
                assert(msg@.subrange(31, 39) =~= "reserved"@);
            }
            Err(crate::envelope::Res::error(msg))
        },
    }
}

/// Copies a mirrored instance.
fn clone_ns_instance(x: &NsInstance) -> (r: NsInstance)
    ensures
        r@ == x@,
{
    let r = NsInstance { namespace_id: x.namespace_id.clone(), instance: x.instance.duplicate() };
    proof {
        assert(r@ =~= x@);
    }
    r
}

/// Stores a key-value pair, replacing the key's previous value.
fn kv_set(kv: &mut Vec<(String, String)>, key: &str, value: &str)
    ensures
        kv_view(final (kv)@) == spec_kv_set(kv_view(old(kv)@), key@, value@),
{
    let mut found = false;
    let mut i: usize = 0;
    while i < kv.len()
        invariant
            i <= kv@.len(),
            old(kv)@ == kv@,
            found == exists|j: int| 0 <= j < i && (#[trigger] kv_view(kv@)[j]).0 == key@,
        decreases kv@.len() - i,
    {
        if str_eq(kv[i].0.as_str(), key) {
            found = true;
            proof {
                assert(kv_view(kv@)[i as int].0 == key@);
            }
        }
        i += 1;
    }
    if found {
        let mut kept: Vec<(String, String)> = Vec::new();
        let mut j: usize = 0;
        while j < kv.len()
            invariant
                j <= kv@.len(),
                old(kv)@ == kv@,
                kept@.len() == j,
                forall|g: int|
                    0 <= g < j ==> ((#[trigger] kept@[g]).0@, kept@[g].1@) == if kv_view(kv@)[g].0
                        == key@ {
                        (kv_view(kv@)[g].0, value@)
                    } else {
                        kv_view(kv@)[g]
                    },
            decreases kv@.len() - j,
        {
            if str_eq(kv[j].0.as_str(), key) {
                kept.push((kv[j].0.clone(), value.to_owned()));
            } else {
                kept.push((kv[j].0.clone(), kv[j].1.clone()));
            }
            j += 1;
        }
        *kv = kept;
        proof {
            assert(kv_view(kv@) =~= spec_kv_set(kv_view(old(kv)@), key@, value@));
        }
    } else {
        kv.push((key.to_owned(), value.to_owned()));
        proof {
            assert(kv_view(kv@) =~= spec_kv_set(kv_view(old(kv)@), key@, value@));
        }
    }
}

/// Removes a key-value pair.
fn kv_remove(kv: &mut Vec<(String, String)>, key: &str)
    ensures
        kv_view(final (kv)@) == spec_kv_remove(kv_view(old(kv)@), key@),
{
    let ghost p = |p: (Seq<char>, Seq<char>)| p.0 != key@;
    let mut kept: Vec<(String, String)> = Vec::new();
    let mut i: usize = 0;
    while i < kv.len()
        invariant
            i <= kv@.len(),
            old(kv)@ == kv@,
            kv_view(kept@) == kv_view(kv@.subrange(0, i as int)).filter(p),
            p == (|p: (Seq<char>, Seq<char>)| p.0 != key@),
        decreases kv@.len() - i,
    {
        proof {
            assert(kv@.subrange(0, i + 1) =~= kv@.subrange(0, i as int).push(kv@[i as int]));
            assert(kv_view(kv@.subrange(0, i as int).push(kv@[i as int])) =~= kv_view(
                kv@.subrange(0, i as int),
            ).push((kv@[i as int].0@, kv@[i as int].1@)));
            lemma_filter_push(
                kv_view(kv@.subrange(0, i as int)),
                p,
                (kv@[i as int].0@, kv@[i as int].1@),
            );
        }
        if !str_eq(kv[i].0.as_str(), key) {
            kept.push((kv[i].0.clone(), kv[i].1.clone()));
            proof {
                assert(kv_view(kept@) =~= kv_view(kv@.subrange(0, i + 1)).filter(p));
            }
        }
        i += 1;
    }
    proof {
        assert(kv@.subrange(0, kv@.len() as int) =~= kv@);
    }
    *kv = kept;
}

/// The first value stored under a key.
pub fn kv_lookup(kv: &Vec<(String, String)>, key: &str) -> (r: Option<String>)
    ensures
        match r {
            Some(v) => spec_kv_lookup(kv_view(kv@), key@) == Some(v@),
            None => spec_kv_lookup(kv_view(kv@), key@) is None,
        },
{
    let ghost cv = kv_view(kv@);
    proof {
        assert(cv.skip(0) =~= cv);
    }
    let mut i: usize = 0;
    while i < kv.len()
        invariant
            i <= kv@.len(),
            cv == kv_view(kv@),
            spec_kv_lookup(cv, key@) == spec_kv_lookup(cv.skip(i as int), key@),
        decreases kv@.len() - i,
    {
        proof {
            assert(cv.skip(i as int).drop_first() =~= cv.skip(i + 1));
            assert(cv.skip(i as int)[0] == cv[i as int]);
        }
        if str_eq(kv[i].0.as_str(), key) {
            return Some(kv[i].1.clone());
        }
        i += 1;
    }
    proof {
        assert(cv.skip(cv.len() as int) =~= Seq::<(Seq<char>, Seq<char>)>::empty());
    }
    None
}

/// The view of a key-value table.
pub open spec fn kv_view(s: Seq<(String, String)>) -> Seq<(Seq<char>, Seq<char>)> {
    s.map_values(|p: (String, String)| (p.0@, p.1@))
}

/// Registers an instance in the mirror.
fn instances_register(xs: &mut Vec<NsInstance>, ns: &str, inst: ServiceInstance)
    ensures
        ns_instances_view(final (xs)@) == spec_instances_register(
            ns_instances_view(old(xs)@),
            ns@,
            inst@,
        ),
{
    let ghost im = inst@;
    let ghost p = |x: NsInstanceModel| !spec_inst_key(x, ns@, im.service_id, im.id);
    let mut kept: Vec<NsInstance> = Vec::new();
    let mut i: usize = 0;
    while i < xs.len()
        invariant
            i <= xs@.len(),
            old(xs)@ == xs@,
            ns_instances_view(kept@) == ns_instances_view(xs@.subrange(0, i as int)).filter(p),
            p == (|x: NsInstanceModel| !spec_inst_key(x, ns@, im.service_id, im.id)),
            im == inst@,
        decreases xs@.len() - i,
    {
        proof {
            assert(xs@.subrange(0, i + 1) =~= xs@.subrange(0, i as int).push(xs@[i as int]));
            assert(ns_instances_view(xs@.subrange(0, i as int).push(xs@[i as int]))
                =~= ns_instances_view(xs@.subrange(0, i as int)).push(xs@[i as int]@));
            lemma_filter_push(ns_instances_view(xs@.subrange(0, i as int)), p, xs@[i as int]@);
        }
        if !(str_eq(xs[i].namespace_id.as_str(), ns) && str_eq(
            xs[i].instance.service_id.as_str(),
            inst.service_id.as_str(),
        ) && str_eq(xs[i].instance.id.as_str(), inst.id.as_str())) {
            let d = clone_ns_instance(&xs[i]);
            kept.push(d);
            proof {
                assert(ns_instances_view(kept@) =~= ns_instances_view(
                    xs@.subrange(0, i + 1),
                ).filter(p));
            }
        }
        i += 1;
    }
    proof {
        assert(xs@.subrange(0, xs@.len() as int) =~= xs@);
    }
    let y = NsInstance { namespace_id: ns.to_owned(), instance: inst };
    kept.push(y);
    *xs = kept;
    proof {
        assert(ns_instances_view(xs@) =~= spec_instances_register(
            ns_instances_view(old(xs)@),
            ns@,
            im,
        ));
    }
}

/// Removes one instance from the mirror.
fn instances_deregister(xs: &mut Vec<NsInstance>, ns: &str, sid: &str, iid: &str)
    ensures
        ns_instances_view(final (xs)@) == spec_instances_deregister(
            ns_instances_view(old(xs)@),
            ns@,
            sid@,
            iid@,
        ),
{
    let ghost p = |x: NsInstanceModel| !spec_inst_key(x, ns@, sid@, iid@);
    let mut kept: Vec<NsInstance> = Vec::new();
    let mut i: usize = 0;
    while i < xs.len()
        invariant
            i <= xs@.len(),
            old(xs)@ == xs@,
            ns_instances_view(kept@) == ns_instances_view(xs@.subrange(0, i as int)).filter(p),
            p == (|x: NsInstanceModel| !spec_inst_key(x, ns@, sid@, iid@)),
        decreases xs@.len() - i,
    {
        proof {
            assert(xs@.subrange(0, i + 1) =~= xs@.subrange(0, i as int).push(xs@[i as int]));
            assert(ns_instances_view(xs@.subrange(0, i as int).push(xs@[i as int]))
                =~= ns_instances_view(xs@.subrange(0, i as int)).push(xs@[i as int]@));
            lemma_filter_push(ns_instances_view(xs@.subrange(0, i as int)), p, xs@[i as int]@);
        }
        if !(str_eq(xs[i].namespace_id.as_str(), ns) && str_eq(
            xs[i].instance.service_id.as_str(),
            sid,
        ) && str_eq(xs[i].instance.id.as_str(), iid)) {
            let d = clone_ns_instance(&xs[i]);
            kept.push(d);
            proof {
                assert(ns_instances_view(kept@) =~= ns_instances_view(
                    xs@.subrange(0, i + 1),
                ).filter(p));
            }
        }
        i += 1;
    }
    proof {
        assert(xs@.subrange(0, xs@.len() as int) =~= xs@);
    }
    *xs = kept;
}

/// Removes a whole service's instances from the mirror.
fn instances_dereg_service(xs: &mut Vec<NsInstance>, ns: &str, sid: &str)
    ensures
        ns_instances_view(final (xs)@) == spec_instances_dereg_service(
            ns_instances_view(old(xs)@),
            ns@,
            sid@,
        ),
{
    let ghost p = |x: NsInstanceModel| !(x.namespace_id == ns@ && x.instance.service_id == sid@);
    let mut kept: Vec<NsInstance> = Vec::new();
    let mut i: usize = 0;
    while i < xs.len()
        invariant
            i <= xs@.len(),
            old(xs)@ == xs@,
            ns_instances_view(kept@) == ns_instances_view(xs@.subrange(0, i as int)).filter(p),
            p == (|x: NsInstanceModel| !(x.namespace_id == ns@ && x.instance.service_id == sid@)),
        decreases xs@.len() - i,
    {
        proof {
            assert(xs@.subrange(0, i + 1) =~= xs@.subrange(0, i as int).push(xs@[i as int]));
            assert(ns_instances_view(xs@.subrange(0, i as int).push(xs@[i as int]))
                =~= ns_instances_view(xs@.subrange(0, i as int)).push(xs@[i as int]@));
            lemma_filter_push(ns_instances_view(xs@.subrange(0, i as int)), p, xs@[i as int]@);
        }
        if !(str_eq(xs[i].namespace_id.as_str(), ns) && str_eq(
            xs[i].instance.service_id.as_str(),
            sid,
        )) {
            let d = clone_ns_instance(&xs[i]);
            kept.push(d);
            proof {
                assert(ns_instances_view(kept@) =~= ns_instances_view(
                    xs@.subrange(0, i + 1),
                ).filter(p));
            }
        }
        i += 1;
    }
    proof {
        assert(xs@.subrange(0, xs@.len() as int) =~= xs@);
    }
    *xs = kept;
}

/// Marks an instance alive in the mirror.
fn instances_mark_up(xs: &mut Vec<NsInstance>, ns: &str, sid: &str, iid: &str)
    ensures
        ns_instances_view(final (xs)@) == spec_instances_mark_up(
            ns_instances_view(old(xs)@),
            ns@,
            sid@,
            iid@,
        ),
{
    let mut kept: Vec<NsInstance> = Vec::new();
    let mut i: usize = 0;
    while i < xs.len()
        invariant
            i <= xs@.len(),
            old(xs)@ == xs@,
            kept@.len() == i,
            forall|g: int|
                0 <= g < i ==> (#[trigger] kept@[g])@ == if spec_inst_key(xs@[g]@, ns@, sid@, iid@) {
                    NsInstanceModel { instance: spec_mark_up_instance(xs@[g]@.instance), ..xs@[g]@ }
                } else {
                    xs@[g]@
                },
        decreases xs@.len() - i,
    {
        if str_eq(xs[i].namespace_id.as_str(), ns) && str_eq(
            xs[i].instance.service_id.as_str(),
            sid,
        ) && str_eq(xs[i].instance.id.as_str(), iid) {
            let mut d = clone_ns_instance(&xs[i]);
            d.instance.status = InstanceStatus::Up;
            d.instance.lost_heartbeats = 0;
            proof {
                assert(d@ =~= (NsInstanceModel {
                    instance: spec_mark_up_instance(xs@[i as int]@.instance),
                    ..xs@[i as int]@
                }));
            }
            kept.push(d);
        } else {
            let d = clone_ns_instance(&xs[i]);
            kept.push(d);
        }
        i += 1;
    }
    *xs = kept;
    proof {
        assert(ns_instances_view(xs@) =~= spec_instances_mark_up(
            ns_instances_view(old(xs)@),
            ns@,
            sid@,
            iid@,
        ));
    }
}

/// The applied state of one node: the key-value table and the stores the
/// command dispatcher routes into.
pub struct AppState {
    pub kv: Vec<(String, String)>,
    pub namespaces: NamespaceStore,
    pub configs: ConfigStore,
    pub services: ServiceStore,
    pub instances: Vec<NsInstance>,
    pub cache: LocalCache,
}

impl View for AppState {
    type V = StateModel;

    open spec fn view(&self) -> StateModel {
        StateModel {
            kv: kv_view(self.kv@),
            namespaces: self.namespaces@,
            configs: crate::config_store::configs_view(self.configs.entries@),
            history: crate::config_store::configs_view(self.configs.history@),
            services: self.services@,
            instances: ns_instances_view(self.instances@),
            cache: self.cache@,
        }
    }
}

impl AppState {
    /// A fresh state machine, holding only the reserved namespace, which
    /// always exists.
    pub fn new(now: i64) -> (r: AppState)
        ensures
            r@.kv == Seq::<(Seq<char>, Seq<char>)>::empty(),
            r@.namespaces == seq![
                NamespaceModel {
                    id: "public"@,
                    name: "public"@,
                    description: None,
                    is_auth: false,
                    auth_token: None,
                    create_time: now as int,
                    update_time: now as int,
                },
            ],
            r@.configs == Seq::<ConfigEntryModel>::empty(),
            r@.history == Seq::<ConfigEntryModel>::empty(),
            r@.services == Seq::<ServiceModel>::empty(),
            r@.instances == Seq::<NsInstanceModel>::empty(),
            r@.cache == Seq::<CacheEntryModel>::empty(),
    {
        let mut namespaces = NamespaceStore::new();
        let public = Namespace {
            id: "public".to_owned(),
            name: "public".to_owned(),
            description: None,
            is_auth: false,
            auth_token: None,
            create_time: now,
            update_time: now,
        };
        namespaces.upsert_namespace(public);
        let r = AppState {
            kv: Vec::new(),
            namespaces,
            configs: ConfigStore::new(),
            services: ServiceStore::new(),
            instances: Vec::new(),
            cache: LocalCache::new(),
        };
        proof {
            assert(r@.kv =~= Seq::<(Seq<char>, Seq<char>)>::empty());
            assert(r@.instances =~= Seq::<NsInstanceModel>::empty());
            assert(r@.namespaces =~= seq![
                NamespaceModel {
                    id: "public"@,
                    name: "public"@,
                    description: None,
                    is_auth: false,
                    auth_token: None,
                    create_time: now as int,
                    update_time: now as int,
                },
            ]);
        }
        r
    }

    /// Applies one committed command, in log order, and returns the
    /// response: the written value for a key-value put, the removed value
    /// for a key-value delete, nothing otherwise. The state moves exactly by
    /// the command's specified effect.
    pub fn apply_command(&mut self, cmd: &Command, now: u64) -> (r: crate::envelope::RaftResponse)
        requires
            spec_cmd_wf(cmd@),
        ensures
            final (self)@ == spec_apply(old(self)@, cmd@, now as int),
            match cmd@ {
                CommandModel::Put { value, .. } => match r.value {
                    Some(v) => v@ == value,
                    None => false,
                },
                CommandModel::Delete { key } => match r.value {
                    Some(v) => spec_kv_lookup(old(self)@.kv, key) == Some(v@),
                    None => spec_kv_lookup(old(self)@.kv, key) is None,
                },
                _ => r.value is None,
            },
    {
        match cmd {
            Command::Put { key, value } => {
                kv_set(&mut self.kv, key.as_str(), value.as_str());
                proof {
                    assert(final (self)@ =~= spec_apply(old(self)@, cmd@, now as int));
                }
                crate::envelope::RaftResponse { value: Some(value.clone()) }
            },
            Command::Delete { key } => {
                let old_value = kv_lookup(&self.kv, key.as_str());
                kv_remove(&mut self.kv, key.as_str());
                proof {
                    assert(final (self)@ =~= spec_apply(old(self)@, cmd@, now as int));
                }
                crate::envelope::RaftResponse { value: old_value }
            },
            Command::SetConfig { entry } => {
                let d = entry.duplicate();
                self.configs.insert_config(d);
                proof {
                    assert(final (self)@ =~= spec_apply(old(self)@, cmd@, now as int));
                }
                crate::envelope::RaftResponse { value: None }
            },
            Command::UpdateConfig { entry } => {
                let d = entry.duplicate();
                self.configs.insert_config(d);
                proof {
                    assert(final (self)@ =~= spec_apply(old(self)@, cmd@, now as int));
                }
                crate::envelope::RaftResponse { value: None }
            },
            Command::DeleteConfig { namespace_id, id } => {
                self.configs.delete_config(namespace_id.as_str(), id.as_str());
                proof {
                    assert(final (self)@ =~= spec_apply(old(self)@, cmd@, now as int));
                }
                crate::envelope::RaftResponse { value: None }
            },
            Command::UpsertNamespace { namespace } => {
                let d = namespace.duplicate();
                self.namespaces.upsert_namespace(d);
                proof {
                    assert(final (self)@ =~= spec_apply(old(self)@, cmd@, now as int));
                }
                crate::envelope::RaftResponse { value: None }
            },
            Command::DeleteNamespace { id } => {
                if !str_eq(id.as_str(), "public") {
                    self.namespaces.delete_namespace(id.as_str());
                    self.configs.delete_namespace_configs(id.as_str());
                    proof {
                        assert(final (self)@ =~= spec_apply(old(self)@, cmd@, now as int));
                    }
                } else {
                    proof {
                        assert(final (self)@ =~= spec_apply(old(self)@, cmd@, now as int));
                    }
                }
                crate::envelope::RaftResponse { value: None }
            },
            Command::RegisterService { service } => {
                if self.namespaces.get_namespace(service.namespace_id.as_str()).is_some() {
                    let d = service.duplicate();
                    self.services.upsert_service(d);
                    proof {
                        assert(final (self)@ =~= spec_apply(old(self)@, cmd@, now as int));
                    }
                } else {
                    proof {
                        assert(final (self)@ =~= spec_apply(old(self)@, cmd@, now as int));
                    }
                }
                crate::envelope::RaftResponse { value: None }
            },
            Command::DeregisterService { namespace_id, service_id } => {
                if self.namespaces.get_namespace(namespace_id.as_str()).is_some() {
                    self.services.delete_service(namespace_id.as_str(), service_id.as_str());
                    instances_dereg_service(
                        &mut self.instances,
                        namespace_id.as_str(),
                        service_id.as_str(),
                    );
                    proof {
                        assert(final (self)@ =~= spec_apply(old(self)@, cmd@, now as int));
                    }
                } else {
                    proof {
                        assert(final (self)@ =~= spec_apply(old(self)@, cmd@, now as int));
                    }
                }
                crate::envelope::RaftResponse { value: None }
            },
            Command::RegisterServiceInstance { namespace_id, instance } => {
                if self.namespaces.get_namespace(namespace_id.as_str()).is_some() {
                    let auto = Service {
                        service_id: instance.service_id.clone(),
                        namespace_id: namespace_id.clone(),
                        meta: Vec::new(),
                        create_time: instance.last_heartbeat as i64,
                        update_time: instance.last_heartbeat as i64,
                    };
                    proof {
                        assert(auto@ =~= spec_auto_service(namespace_id@, instance@));
                    }
                    self.services.upsert_service(auto);
                    let d = instance.duplicate();
                    instances_register(&mut self.instances, namespace_id.as_str(), d);
                    proof {
                        assert(final (self)@ =~= spec_apply(old(self)@, cmd@, now as int));
                    }
                } else {
                    proof {
                        assert(final (self)@ =~= spec_apply(old(self)@, cmd@, now as int));
                    }
                }
                crate::envelope::RaftResponse { value: None }
            },
            Command::DeregisterServiceInstance { namespace_id, service_id, instance_id } => {
                if self.namespaces.get_namespace(namespace_id.as_str()).is_some() {
                    instances_deregister(
                        &mut self.instances,
                        namespace_id.as_str(),
                        service_id.as_str(),
                        instance_id.as_str(),
                    );
                    proof {
                        assert(final (self)@ =~= spec_apply(old(self)@, cmd@, now as int));
                    }
                } else {
                    proof {
                        assert(final (self)@ =~= spec_apply(old(self)@, cmd@, now as int));
                    }
                }
                crate::envelope::RaftResponse { value: None }
            },
            Command::Heartbeat { namespace_id, service_id, instance_id } => {
                if self.namespaces.get_namespace(namespace_id.as_str()).is_some() {
                    instances_mark_up(
                        &mut self.instances,
                        namespace_id.as_str(),
                        service_id.as_str(),
                        instance_id.as_str(),
                    );
                    proof {
                        assert(final (self)@ =~= spec_apply(old(self)@, cmd@, now as int));
                    }
                } else {
                    proof {
                        assert(final (self)@ =~= spec_apply(old(self)@, cmd@, now as int));
                    }
                }
                crate::envelope::RaftResponse { value: None }
            },
            Command::CacheWrite { key, value, ttl } => {
                let d = deep_copy(value);
                self.cache.set(key.as_str(), d, *ttl, now);
                proof {
                    assert(final (self)@ =~= spec_apply(old(self)@, cmd@, now as int));
                }
                crate::envelope::RaftResponse { value: None }
            },
        }
    }
}


/// A node's full state machine: the applied data, the position of the last
/// applied entry, and the membership the log has established. The applied
/// position is advanced in memory per entry and persisted only at snapshot
/// time; recovery reloads the snapshot and re-applies the log after it,
/// which the replay laws make safe.
pub struct StateMachine {
    pub state: AppState,
    pub last_applied: Option<crate::log_store::LogId>,
    pub membership: Vec<u64>,
}

impl StateMachine {
    /// A fresh state machine.
    pub fn new(now: i64) -> (r: StateMachine)
        ensures
            r.last_applied is None,
            r.membership@ == Seq::<u64>::empty(),
    {
        let r = StateMachine { state: AppState::new(now), last_applied: None, membership: Vec::new() };
        proof {
            assert(r.membership@ =~= Seq::<u64>::empty());
        }
        r
    }

    /// Applies one committed log entry, in log order: the applied position
    /// advances to the entry's, a blank entry does nothing more, a normal
    /// entry moves the applied state by its command's effect, and a
    /// membership entry records the new member set.
    pub fn apply_entry(&mut self, entry: &crate::log_store::LogEntry, now: u64) -> (r:
        crate::envelope::RaftResponse)
        requires
            match entry.payload {
                crate::log_store::EntryPayload::Normal(ref c) => spec_cmd_wf(c@),
                _ => true,
            },
        ensures
            final (self).last_applied == Some(entry.log_id),
            match entry.payload {
                crate::log_store::EntryPayload::Blank => final (self).state@ == old(self).state@
                    && final (self).membership@ == old(self).membership@ && r.value is None,
                crate::log_store::EntryPayload::Normal(ref c) => final (self).state@ == spec_apply(
                    old(self).state@,
                    c@,
                    now as int,
                ) && final (self).membership@ == old(self).membership@ && (match c@ {
                    CommandModel::Put { value, .. } => match r.value {
                        Some(v) => v@ == value,
                        None => false,
                    },
                    CommandModel::Delete { key } => match r.value {
                        Some(v) => spec_kv_lookup(old(self).state@.kv, key) == Some(v@),
                        None => spec_kv_lookup(old(self).state@.kv, key) is None,
                    },
                    _ => r.value is None,
                }),
                crate::log_store::EntryPayload::Membership(ref m) => final (self).state@ == old(
                    self,
                ).state@ && final (self).membership@ == m@ && r.value is None,
            },
    {
        self.last_applied = Some(entry.log_id);
        match &entry.payload {
            crate::log_store::EntryPayload::Blank => crate::envelope::RaftResponse { value: None },
            crate::log_store::EntryPayload::Normal(c) => self.state.apply_command(c, now),
            crate::log_store::EntryPayload::Membership(m) => {
                let mut copy: Vec<u64> = Vec::new();
                let mut i: usize = 0;
                while i < m.len()
                    invariant
                        i <= m@.len(),
                        copy@ == m@.subrange(0, i as int),
                    decreases m@.len() - i,
                {
                    copy.push(m[i]);
                    proof {
                        assert(copy@ =~= m@.subrange(0, i + 1));
                    }
                    i += 1;
                }
                proof {
                    assert(m@.subrange(0, m@.len() as int) =~= m@);
                }
                self.membership = copy;
                crate::envelope::RaftResponse { value: None }
            },
        }
    }

    /// The snapshot id the snapshot is stored under: the last applied
    /// position and the snapshot counter, dash-separated; a snapshot of a
    /// fresh machine carries only the counter.
    pub fn snapshot_id(&self, snapshot_idx: u64) -> (r: String)
        ensures
            match self.last_applied {
                Some(last) => r@ == crate::text::spec_dec(last.term as int) + seq!['-']
                    + crate::text::spec_dec(last.node_id as int) + seq!['-'] + crate::text::spec_dec(
                    last.index as int,
                ) + seq!['-'] + crate::text::spec_dec(snapshot_idx as int),
                None => r@ == seq!['-', '-'] + crate::text::spec_dec(snapshot_idx as int),
            },
    {
        proof {
            reveal_strlit("-");
            reveal_strlit("--");
        }
        match self.last_applied {
            Some(last) => {
                let mut s = crate::text::u64_to_string(last.term);
                s.append("-");
                let n = crate::text::u64_to_string(last.node_id);
                s.append(n.as_str());
                s.append("-");
                let ix = crate::text::u64_to_string(last.index);
                s.append(ix.as_str());
                s.append("-");
                let c = crate::text::u64_to_string(snapshot_idx);
                s.append(c.as_str());
                proof {
                    assert(s@ =~= crate::text::spec_dec(last.term as int) + seq!['-']
                        + crate::text::spec_dec(last.node_id as int) + seq!['-']
                        + crate::text::spec_dec(last.index as int) + seq!['-']
                        + crate::text::spec_dec(snapshot_idx as int));
                }
                s
            },
            None => {
                let mut s = "--".to_owned();
                let c = crate::text::u64_to_string(snapshot_idx);
                s.append(c.as_str());
                proof {
                    assert(s@ =~= seq!['-', '-'] + crate::text::spec_dec(snapshot_idx as int));
                }
                s
            },
        }
    }
}


/// The bare instances of a mirrored list.
pub open spec fn project_instances(xs: Seq<NsInstanceModel>) -> Seq<InstanceModel> {
    xs.map_values(|x: NsInstanceModel| x.instance)
}

impl AppState {
    /// The mirrored instances of one service, in stored order.
    pub fn instances_of(&self, namespace_id: &str, service_id: &str) -> (r: Vec<ServiceInstance>)
        ensures
            crate::registry::instances_view(r@) == project_instances(
                ns_instances_view(self.instances@).filter(
                    |x: NsInstanceModel| x.namespace_id == namespace_id@ && x.instance.service_id
                        == service_id@,
                ),
            ),
    {
        let ghost p = |x: NsInstanceModel| x.namespace_id == namespace_id@ && x.instance.service_id
            == service_id@;
        let mut out: Vec<ServiceInstance> = Vec::new();
        let mut i: usize = 0;
        while i < self.instances.len()
            invariant
                i <= self.instances@.len(),
                crate::registry::instances_view(out@) == project_instances(
                    ns_instances_view(self.instances@.subrange(0, i as int)).filter(p),
                ),
                p == (|x: NsInstanceModel| x.namespace_id == namespace_id@
                    && x.instance.service_id == service_id@),
            decreases self.instances@.len() - i,
        {
            proof {
                assert(self.instances@.subrange(0, i + 1) =~= self.instances@.subrange(
                    0,
                    i as int,
                ).push(self.instances@[i as int]));
                assert(ns_instances_view(self.instances@.subrange(0, i as int).push(
                    self.instances@[i as int],
                )) =~= ns_instances_view(self.instances@.subrange(0, i as int)).push(
                    self.instances@[i as int]@,
                ));
                lemma_filter_push(
                    ns_instances_view(self.instances@.subrange(0, i as int)),
                    p,
                    self.instances@[i as int]@,
                );
            }
            if str_eq(self.instances[i].namespace_id.as_str(), namespace_id) && str_eq(
                self.instances[i].instance.service_id.as_str(),
                service_id,
            ) {
                let d = self.instances[i].instance.duplicate();
                out.push(d);
                proof {
                    assert(p(self.instances@[i as int]@));
                    assert(ns_instances_view(self.instances@.subrange(0, i + 1)).filter(p)
                        =~= ns_instances_view(self.instances@.subrange(0, i as int)).filter(p).push(
                        self.instances@[i as int]@,
                    ));
                    assert(crate::registry::instances_view(out@) =~= project_instances(
                        ns_instances_view(self.instances@.subrange(0, i as int)).filter(p),
                    ).push(d@));
                    assert(project_instances(
                        ns_instances_view(self.instances@.subrange(0, i as int)).filter(p).push(
                            self.instances@[i as int]@,
                        ),
                    ) =~= project_instances(
                        ns_instances_view(self.instances@.subrange(0, i as int)).filter(p),
                    ).push(self.instances@[i as int]@.instance));
                    assert(crate::registry::instances_view(out@) =~= project_instances(
                        ns_instances_view(self.instances@.subrange(0, i + 1)).filter(p),
                    ));
                }
            } else {
                proof {
                    assert(!p(self.instances@[i as int]@));
                    assert(crate::registry::instances_view(out@) =~= project_instances(
                        ns_instances_view(self.instances@.subrange(0, i + 1)).filter(p),
                    ));
                }
            }
            i += 1;
        }
        proof {
            assert(self.instances@.subrange(0, self.instances@.len() as int) =~= self.instances@);
        }
        out
    }

    /// The mirrored instances of one service that are available (`Up`), the
    /// only ones handed to clients.
    pub fn available_instances_of(&self, namespace_id: &str, service_id: &str) -> (r: Vec<
        ServiceInstance,
    >)
        ensures
            crate::registry::instances_view(r@) == crate::registry::spec_available(
                project_instances(
                    ns_instances_view(self.instances@).filter(
                        |x: NsInstanceModel| x.namespace_id == namespace_id@
                            && x.instance.service_id == service_id@,
                    ),
                ),
            ),
    {
        let all = self.instances_of(namespace_id, service_id);
        crate::registry::available_instances(&all)
    }
}

} // verus!
