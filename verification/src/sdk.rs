//! The client SDK core: the decisions of the long-poll watcher and heartbeat
//! loops, extraction of fetched config contents, the in-memory flattened
//! view, and the local instance cache behind the load balancers.

use vstd::prelude::*;
use vstd::string::StringExecFns;

use crate::conf::{ClientConfig, ConRegConfig, ConfigConfig, DiscoveryConfig};
use crate::configs::{flat_view, spec_lookup, Configs};
use crate::discovery::HeartbeatResult;
use crate::lb::Instance;
use crate::text::str_eq;
use crate::value::{
    deep_copy, entries_model, lemma_entries_model_len, value_model, ConfigValue, ValueModel,
};

verus! {

/// What the watcher does with a long-poll answer: a changed config id means
/// every subscribed config is re-fetched and the view rebuilt; an empty
/// answer means polling again at once.
pub enum WatchAction {
    RefetchAll(String),
    Repoll,
}

/// Decides on a long-poll answer.
pub fn watch_response_action(changed: Option<String>) -> (r: WatchAction)
    ensures
        match changed {
            Some(id) => match r {
                WatchAction::RefetchAll(got) => got@ == id@,
                _ => false,
            },
            None => r is Repoll,
        },
{
    match changed {
        Some(id) => WatchAction::RefetchAll(id),
        None => WatchAction::Repoll,
    }
}

/// What the heartbeat loop does with a result: a missing instance is
/// re-registered at once, an unknown result is only logged.
pub enum HeartbeatAction {
    Continue,
    ReRegister,
    LogUnknown,
}

/// Decides on a heartbeat result.
pub fn heartbeat_reaction(result: &HeartbeatResult) -> (r: HeartbeatAction)
    ensures
        result is Okay ==> r is Continue,
        result is NoInstanceFound ==> r is ReRegister,
        result is Unknown ==> r is LogUnknown,
{
    match result {
        HeartbeatResult::Okay => HeartbeatAction::Continue,
        HeartbeatResult::NoInstanceFound => HeartbeatAction::ReRegister,
        HeartbeatResult::Unknown => HeartbeatAction::LogUnknown,
    }
}

/// Reads a heartbeat result off the wire; anything unrecognized is
/// `Unknown`, as between incompatible versions.
pub fn heartbeat_result_from_wire(s: &str) -> (r: HeartbeatResult)
    ensures
        s@ == "Ok"@ ==> r is Okay,
        s@ == "NoInstanceFound"@ ==> r is NoInstanceFound,
        s@ != "Ok"@ && s@ != "NoInstanceFound"@ ==> r is Unknown,
{
    proof {
        reveal_strlit("Ok");
        reveal_strlit("NoInstanceFound");
        assert("Ok"@.len() == 2);
        assert("NoInstanceFound"@.len() == 15);
    }
    if str_eq(s, "Ok") {
        HeartbeatResult::Okay
    } else if str_eq(s, "NoInstanceFound") {
        HeartbeatResult::NoInstanceFound
    } else {
        HeartbeatResult::Unknown
    }
}

/// The first mapping value under a string key.
pub open spec fn spec_field_lookup(
    ps: Seq<(ValueModel, ValueModel)>,
    key: Seq<char>,
) -> Option<ValueModel>
    decreases ps.len(),
{
    if ps.len() == 0 {
        None
    } else if ps[0].0 == ValueModel::Str(key) {
        Some(ps[0].1)
    } else {
        spec_field_lookup(ps.drop_first(), key)
    }
}

/// Pulls the `content` text out of a fetched config document: present
/// exactly when the response is a mapping whose `content` field is a string.
pub fn extract_content(response: &ConfigValue) -> (r: Option<String>)
    ensures
        match response@ {
            ValueModel::Mapping(ps) => match spec_field_lookup(ps, "content"@) {
                Some(ValueModel::Str(c)) => match r {
                    Some(s) => s@ == c,
                    None => false,
                },
                _ => r is None,
            },
            _ => r is None,
        },
{
    match response {
        ConfigValue::Mapping(ps) => {
            proof {
                assert(response@ == ValueModel::Mapping(entries_model(ps@)));
            }
            let ghost pv = entries_model(ps@);
            proof {
                assert(pv.skip(0) =~= pv);
            }
            let mut i: usize = 0;
            while i < ps.len()
                invariant
                    i <= ps@.len(),
                    pv == entries_model(ps@),
                    response@ == ValueModel::Mapping(pv),
                    spec_field_lookup(pv, "content"@) == spec_field_lookup(
                        pv.skip(i as int),
                        "content"@,
                    ),
                decreases ps@.len() - i,
            {
                proof {
                    lemma_entries_model_len(ps@);
                    assert(pv.skip(i as int).drop_first() =~= pv.skip(i + 1));
                    assert(pv.skip(i as int)[0] == pv[i as int]);
                }
                match &ps[i].0 {
                    ConfigValue::Str(k) => {
                        proof {
                            assert(pv[i as int].0 == ValueModel::Str(k@));
                        }
                        if str_eq(k.as_str(), "content") {
                            proof {
                                assert(pv[i as int].0 == ValueModel::Str("content"@));
                                assert(pv[i as int].1 == value_model(ps@[i as int].1));
                                assert(pv.skip(i as int).len() > 0);
                                assert(pv.skip(i as int)[0].0 == ValueModel::Str("content"@));
                                assert(spec_field_lookup(pv.skip(i as int), "content"@) == Some(
                                    pv.skip(i as int)[0].1,
                                ));
                                assert(spec_field_lookup(pv, "content"@) == Some(pv[i as int].1));
                            }
                            match &ps[i].1 {
                                ConfigValue::Str(c) => {
                                    proof {
                                        assert(pv[i as int].1 == ValueModel::Str(c@));
                                    }
                                    return Some(c.clone());
                                },
                                _ => {
                                    proof {
                                        crate::value::lemma_value_model_variant(ps@[i as int].1);
                                    }
                                    return None;
                                },
                            }
                        }
                    },
                    _ => {
                        proof {
                            crate::value::lemma_value_model_variant(ps@[i as int].0);
                            assert(!(pv[i as int].0 is Str));
                        }
                    },
                }
                i += 1;
            }
            proof {
                lemma_entries_model_len(ps@);
                assert(pv.skip(pv.len() as int) =~= Seq::<(ValueModel, ValueModel)>::empty());
            }
            None
        },
        _ => {
            proof {
                crate::value::lemma_value_model_variant(*response);
            }
            None
        },
    }
}

/// The config-center client: it holds the subscription (namespace, config
/// ids, token) that the fetch, watch and compensating-refresh loops use.
pub struct ConfigClient {
    pub config: ConfigConfig,
}

impl ConfigClient {
    /// A client for the bootstrap file's config section; without one there
    /// is nothing to subscribe to.
    pub fn new(config: ConRegConfig) -> (r: Result<ConfigClient, ()>)
        ensures
            match r {
                Ok(c) => config.config is Some && c.config == config.config->Some_0,
                Err(_) => config.config is None,
            },
    {
        match config.config {
            Some(c) => Ok(ConfigClient { config: c }),
            None => Err(()),
        }
    }
}

/// The process-wide configuration view: the merged document and its
/// flattened dotted-path map, swapped wholesale on every reload.
pub struct AppConfig {
    pub configs: Configs,
}

impl AppConfig {
    /// The view over freshly fetched contents.
    pub fn new(configs: Configs) -> (r: AppConfig)
        ensures
            r.configs == configs,
    {
        AppConfig { configs }
    }

    /// Swaps in a rebuilt view, as the watcher and the compensating refresh
    /// do.
    pub fn reload(&mut self, configs: Configs)
        ensures
            final (self).configs == configs,
    {
        self.configs = configs;
    }

    /// The leaf under a dotted path.
    pub fn get(&self, key: &str) -> (r: Option<&ConfigValue>)
        ensures
            match r {
                Some(v) => spec_lookup(flat_view(self.configs.configs@), key@) == Some(v@),
                None => spec_lookup(flat_view(self.configs.configs@), key@) is None,
            },
    {
        self.configs.get(key)
    }
}

/// The client-side instance cache: the lists the sync task refreshes and the
/// balancers read.
pub struct AppDiscovery {
    pub services: Vec<(String, Vec<Instance>)>,
}

/// The first cached list of a service.
pub open spec fn spec_cached(
    s: Seq<(String, Vec<Instance>)>,
    sid: Seq<char>,
) -> Option<Seq<Instance>>
    decreases s.len(),
{
    if s.len() == 0 {
        None
    } else if s[0].0@ == sid {
        Some(s[0].1@)
    } else {
        spec_cached(s.drop_first(), sid)
    }
}

impl AppDiscovery {
    /// An empty cache.
    pub fn new() -> (r: AppDiscovery)
        ensures
            r.services@ == Seq::<(String, Vec<Instance>)>::empty(),
    {
        let r = AppDiscovery { services: Vec::new() };
        proof {
            assert(r.services@ =~= Seq::<(String, Vec<Instance>)>::empty());
        }
        r
    }

    /// The cached instances of a service, if the service was ever queried.
    pub fn get_cached(&self, service_id: &str) -> (r: Option<&Vec<Instance>>)
        ensures
            match r {
                Some(v) => spec_cached(self.services@, service_id@) == Some(v@),
                None => spec_cached(self.services@, service_id@) is None,
            },
    {
        let ghost cv = self.services@;
        proof {
            assert(cv.skip(0) =~= cv);
        }
        let mut i: usize = 0;
        while i < self.services.len()
            invariant
                i <= self.services@.len(),
                cv == self.services@,
                spec_cached(cv, service_id@) == spec_cached(cv.skip(i as int), service_id@),
            decreases self.services@.len() - i,
        {
            proof {
                assert(cv.skip(i as int).drop_first() =~= cv.skip(i + 1));
                assert(cv.skip(i as int)[0] == cv[i as int]);
            }
            if str_eq(self.services[i].0.as_str(), service_id) {
                return Some(&self.services[i].1);
            }
            i += 1;
        }
        proof {
            assert(cv.skip(cv.len() as int) =~= Seq::<(String, Vec<Instance>)>::empty());
        }
        None
    }

    /// The ids of every service ever queried, for the periodic sync.
    pub fn service_ids(&self) -> (r: Vec<String>)
        ensures
            r@.len() == self.services@.len(),
            forall|j: int| 0 <= j < r@.len() ==> (#[trigger] r@[j])@ == self.services@[j].0@,
    {
        let mut r: Vec<String> = Vec::new();
        let mut i: usize = 0;
        while i < self.services.len()
            invariant
                i <= self.services@.len(),
                r@.len() == i,
                forall|j: int| 0 <= j < i ==> (#[trigger] r@[j])@ == self.services@[j].0@,
            decreases self.services@.len() - i,
        {
            r.push(self.services[i].0.clone());
            i += 1;
        }
        r
    }

    /// Caches a fetched instance list, replacing any previous one.
    pub fn store(&mut self, service_id: &str, instances: Vec<Instance>)
        ensures
            spec_cached(final (self).services@, service_id@) == Some(instances@),
    {
        let ghost inst0 = instances@;
        let mut first: Option<usize> = None;
        let mut i: usize = 0;
        while i < self.services.len()
            invariant
                i <= self.services@.len(),
                old(self).services@ == self.services@,
                match first {
                    Some(f) => f < i && self.services@[f as int].0@ == service_id@ && (forall|
                        h: int,
                    | 0 <= h < f ==> (#[trigger] self.services@[h]).0@ != service_id@),
                    None => forall|h: int|
                        0 <= h < i ==> (#[trigger] self.services@[h]).0@ != service_id@,
                },
            decreases self.services@.len() - i,
        {
            if first.is_none() && str_eq(self.services[i].0.as_str(), service_id) {
                first = Some(i);
            }
            i += 1;
        }
        match first {
            Some(fi) => {
                let mut kept: Vec<(String, Vec<Instance>)> = Vec::new();
                let mut moved = Some(instances);
                let mut j: usize = 0;
                while j < self.services.len()
                    invariant
                        j <= self.services@.len(),
                        old(self).services@ == self.services@,
                        fi < self.services@.len(),
                        self.services@[fi as int].0@ == service_id@,
                        kept@.len() == j,
                        forall|g: int|
                            0 <= g < j ==> (#[trigger] kept@[g]).0@ == self.services@[g].0@,
                        j <= fi ==> (match moved {
                            Some(v) => v@ == inst0,
                            None => false,
                        }),
                        j > fi ==> kept@[fi as int].1@ == inst0,
                    decreases self.services@.len() - j,
                {
                    if j == fi {
                        proof {
                            assert(moved is Some);
                        }
                        let v = match moved {
                            Some(v) => v,
                            None => Vec::new(),
                        };
                        moved = None;
                        kept.push((self.services[j].0.clone(), v));
                    } else {
                        let v = dup_instances_at(&self.services, j);
                        kept.push((self.services[j].0.clone(), v));
                    }
                    j += 1;
                }
                self.services = kept;
                proof {
                    lemma_cached_pointwise(
                        old(self).services@,
                        self.services@,
                        service_id@,
                        inst0,
                        fi as int,
                    );
                }
            },
            None => {
                self.services.push((service_id.to_owned(), instances));
                proof {
                    assert(self.services@ =~= old(self).services@.push(
                        self.services@[self.services@.len() - 1],
                    ));
                    lemma_cached_appended(
                        old(self).services@,
                        self.services@[self.services@.len() - 1],
                        service_id@,
                    );
                }
            },
        }
    }
}

/// Copies one cached instance list.
fn dup_instances_at(s: &Vec<(String, Vec<Instance>)>, j: usize) -> (r: Vec<Instance>)
    requires
        j < s@.len(),
    ensures
        r@.len() == s@[j as int].1@.len(),
        forall|g: int| 0 <= g < r@.len() ==> (#[trigger] r@[g])@ == s@[j as int].1@[g]@,
{
    let src = &s[j].1;
    let mut r: Vec<Instance> = Vec::new();
    let mut i: usize = 0;
    while i < src.len()
        invariant
            i <= src@.len(),
            src@ == s@[j as int].1@,
            r@.len() == i,
            forall|g: int| 0 <= g < i ==> (#[trigger] r@[g])@ == src@[g]@,
        decreases src@.len() - i,
    {
        let d = src[i].duplicate();
        r.push(d);
        i += 1;
    }
    r
}

/// A rewritten cache reads back the list stored at the first matching slot.
proof fn lemma_cached_pointwise(
    before: Seq<(String, Vec<Instance>)>,
    after: Seq<(String, Vec<Instance>)>,
    sid: Seq<char>,
    stored: Seq<Instance>,
    fi: int,
)
    requires
        before.len() == after.len(),
        forall|g: int| 0 <= g < after.len() ==> (#[trigger] after[g]).0@ == before[g].0@,
        0 <= fi < before.len(),
        before[fi].0@ == sid,
        forall|h: int| 0 <= h < fi ==> (#[trigger] before[h]).0@ != sid,
        after[fi].1@ == stored,
    ensures
        spec_cached(after, sid) == Some(stored),
    decreases fi,
{
    if fi == 0 {
        assert(after[0].0@ == sid);
    } else {
        assert(after[0].0@ != sid);
        assert forall|g: int|
            0 <= g < after.drop_first().len() implies (#[trigger] after.drop_first()[g]).0@
            == before.drop_first()[g].0@ by {
            assert(after.drop_first()[g] == after[g + 1]);
            assert(before.drop_first()[g] == before[g + 1]);
        }
        assert forall|h: int|
            0 <= h < fi - 1 implies (#[trigger] before.drop_first()[h]).0@ != sid by {
            assert(before.drop_first()[h] == before[h + 1]);
        }
        assert(before.drop_first()[fi - 1] == before[fi]);
        assert(after.drop_first()[fi - 1] == after[fi]);
        lemma_cached_pointwise(before.drop_first(), after.drop_first(), sid, stored, fi - 1);
    }
}

/// A list appended for a previously unknown service reads back.
proof fn lemma_cached_appended(
    before: Seq<(String, Vec<Instance>)>,
    p: (String, Vec<Instance>),
    sid: Seq<char>,
)
    requires
        forall|j: int| 0 <= j < before.len() ==> (#[trigger] before[j]).0@ != sid,
        p.0@ == sid,
    ensures
        spec_cached(before.push(p), sid) == Some(p.1@),
    decreases before.len(),
{
    if before.len() == 0 {
        assert(before.push(p)[0] == p);
    } else {
        assert(before.push(p)[0] == before[0]);
        assert(before.push(p).drop_first() =~= before.drop_first().push(p));
        assert forall|j: int|
            0 <= j < before.drop_first().len() implies (#[trigger] before.drop_first()[j]).0@
            != sid by {
            assert(before.drop_first()[j] == before[j + 1]);
        }
        lemma_cached_appended(before.drop_first(), p, sid);
    }
}

/// The discovery client's identity: what it registers and heartbeats as.
pub struct DiscoveryClient {
    pub service_id: String,
    pub client: ClientConfig,
    pub config: DiscoveryConfig,
}

/// A registration request as posted to the registry.
pub struct RegisterReq {
    pub namespace_id: String,
    pub service_id: String,
    pub ip: String,
    pub port: u16,
    pub meta: Vec<(String, String)>,
}

/// A heartbeat request as posted to the registry.
pub struct HeartbeatReq {
    pub namespace_id: String,
    pub service_id: String,
    pub instance_id: String,
}

impl DiscoveryClient {
    /// A client for the bootstrap file's discovery section.
    pub fn new(config: ConRegConfig) -> (r: Result<DiscoveryClient, ()>)
        ensures
            match r {
                Ok(c) => config.discovery is Some && c.service_id@ == config.service_id@
                    && c.client.address@ == config.client.address@ && c.client.port
                    == config.client.port,
                Err(_) => config.discovery is None,
            },
    {
        match config.discovery {
            Some(d) => Ok(
                DiscoveryClient { service_id: config.service_id, client: config.client, config: d },
            ),
            None => Err(()),
        }
    }

    /// The registration request: this client's endpoint under its service id
    /// and namespace.
    pub fn register_request(&self) -> (r: RegisterReq)
        ensures
            r.namespace_id@ == self.config.namespace@,
            r.service_id@ == self.service_id@,
            r.ip@ == self.client.address@,
            r.port == self.client.port,
            crate::discovery::meta_view(r.meta@) == crate::discovery::meta_view(self.config.meta@),
    {
        RegisterReq {
            namespace_id: self.config.namespace.clone(),
            service_id: self.service_id.clone(),
            ip: self.client.address.clone(),
            port: self.client.port,
            meta: crate::discovery::clone_meta(&self.config.meta),
        }
    }

    /// The heartbeat request: the client's deterministic instance id under
    /// its service id and namespace.
    pub fn heartbeat_request(&self) -> (r: HeartbeatReq)
        ensures
            r.namespace_id@ == self.config.namespace@,
            r.service_id@ == self.service_id@,
            r.instance_id@ == crate::discovery::spec_instance_id(
                self.client.address@,
                self.client.port as int,
            ),
    {
        HeartbeatReq {
            namespace_id: self.config.namespace.clone(),
            service_id: self.service_id.clone(),
            instance_id: self.client.gen_instance_id(),
        }
    }
}

} // verus!
