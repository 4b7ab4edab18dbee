//! The discovery engine's instance registry: one list of instances per
//! service id, with registration, deregistration, heartbeats, health ticks,
//! cleanup of `Down` instances, and the availability filter.

use vstd::prelude::*;
use vstd::string::StringExecFns;

use crate::discovery::{
    spec_heartbeat_instance, spec_tick_instance, HeartbeatResult, InstanceModel, InstanceStatus,
    ServiceInstance,
};
use crate::seqs::lemma_filter_push;
use crate::text::str_eq;

verus! {

/// The view of a list of instances.
pub open spec fn instances_view(s: Seq<ServiceInstance>) -> Seq<InstanceModel> {
    s.map_values(|i: ServiceInstance| i@)
}

/// All instances of one service.
pub struct ServiceGroup {
    pub service_id: String,
    pub instances: Vec<ServiceInstance>,
}

/// Mathematical model of a service's instance list.
#[verifier::ext_equal]
pub ghost struct GroupModel {
    pub service_id: Seq<char>,
    pub instances: Seq<InstanceModel>,
}

impl View for ServiceGroup {
    type V = GroupModel;

    open spec fn view(&self) -> GroupModel {
        GroupModel { service_id: self.service_id@, instances: instances_view(self.instances@) }
    }
}

/// The per-namespace discovery map: service id to instance list.
pub struct Discovery {
    pub services: Vec<ServiceGroup>,
}

/// The view of the discovery map.
pub open spec fn groups_view(s: Seq<ServiceGroup>) -> Seq<GroupModel> {
    s.map_values(|g: ServiceGroup| g@)
}

/// Whether a group for the service id exists.
pub open spec fn spec_has_group(gs: Seq<GroupModel>, sid: Seq<char>) -> bool {
    exists|j: int| 0 <= j < gs.len() && (#[trigger] gs[j]).service_id == sid
}

/// Whether an instance with the given id exists under the given service.
pub open spec fn spec_has_instance(gs: Seq<GroupModel>, sid: Seq<char>, iid: Seq<char>) -> bool {
    exists|j: int, k: int|
        0 <= j < gs.len() && 0 <= k < gs[j].instances.len() && (#[trigger] gs[j]).service_id == sid
            && (#[trigger] gs[j].instances[k]).id == iid
}

/// An instance list after an instance registers: any previous instance with
/// the same id is dropped, the new one is appended.
pub open spec fn spec_register_in_list(ms: Seq<InstanceModel>, inst: InstanceModel) -> Seq<
    InstanceModel,
> {
    ms.filter(|m: InstanceModel| m.id != inst.id).push(inst)
}

/// The discovery map after an instance registers: its service's list is
/// updated in place; a missing service gets a fresh group.
pub open spec fn spec_register_instance(gs: Seq<GroupModel>, inst: InstanceModel) -> Seq<
    GroupModel,
> {
    if spec_has_group(gs, inst.service_id) {
        gs.map_values(
            |g: GroupModel|
                if g.service_id == inst.service_id {
                    GroupModel { instances: spec_register_in_list(g.instances, inst), ..g }
                } else {
                    g
                },
        )
    } else {
        gs.push(GroupModel { service_id: inst.service_id, instances: seq![inst] })
    }
}

/// The discovery map after an instance deregisters.
pub open spec fn spec_deregister_instance(
    gs: Seq<GroupModel>,
    sid: Seq<char>,
    iid: Seq<char>,
) -> Seq<GroupModel> {
    gs.map_values(
        |g: GroupModel|
            if g.service_id == sid {
                GroupModel { instances: g.instances.filter(|m: InstanceModel| m.id != iid), ..g }
            } else {
                g
            },
    )
}

/// The discovery map after a heartbeat for the given instance.
pub open spec fn spec_heartbeat_map(
    gs: Seq<GroupModel>,
    sid: Seq<char>,
    iid: Seq<char>,
    now: int,
) -> Seq<GroupModel> {
    gs.map_values(
        |g: GroupModel|
            if g.service_id == sid {
                GroupModel {
                    instances: g.instances.map_values(
                        |m: InstanceModel|
                            if m.id == iid {
                                spec_heartbeat_instance(m, now)
                            } else {
                                m
                            },
                    ),
                    ..g
                }
            } else {
                g
            },
    )
}

/// The discovery map after one health-check tick.
pub open spec fn spec_tick_map(gs: Seq<GroupModel>, now: int, timeout: int) -> Seq<GroupModel> {
    gs.map_values(
        |g: GroupModel|
            GroupModel {
                instances: g.instances.map_values(
                    |m: InstanceModel| spec_tick_instance(m, now, timeout),
                ),
                ..g
            },
    )
}

/// The discovery map after a cleanup pass: `Down` instances are removed.
pub open spec fn spec_cleanup_map(gs: Seq<GroupModel>) -> Seq<GroupModel> {
    gs.map_values(
        |g: GroupModel|
            GroupModel {
                instances: g.instances.filter(|m: InstanceModel| !(m.status is Down)),
                ..g
            },
    )
}

/// The available instances of a list: those whose status is `Up`.
pub open spec fn spec_available(ms: Seq<InstanceModel>) -> Seq<InstanceModel> {
    ms.filter(|m: InstanceModel| m.status is Up)
}

/// Copies an instance list.
pub fn clone_instances(v: &Vec<ServiceInstance>) -> (r: Vec<ServiceInstance>)
    ensures
        instances_view(r@) == instances_view(v@),
{
    let mut r: Vec<ServiceInstance> = Vec::new();
    let mut i: usize = 0;
    while i < v.len()
        invariant
            i <= v.len(),
            r@.len() == i,
            forall|j: int| 0 <= j < i ==> (#[trigger] r@[j])@ == v@[j]@,
        decreases v.len() - i,
    {
        let d = v[i].duplicate();
        r.push(d);
        i += 1;
    }
    proof {
        assert(instances_view(r@) =~= instances_view(v@));
    }
    r
}

/// Keeps the instances a predicate-checked exec pass kept; the three filters
/// below share this shape.
fn filter_out_id(v: &Vec<ServiceInstance>, iid: &str) -> (r: Vec<ServiceInstance>)
    ensures
        instances_view(r@) == instances_view(v@).filter(|m: InstanceModel| m.id != iid@),
{
    let ghost p = |m: InstanceModel| m.id != iid@;
    let mut r: Vec<ServiceInstance> = Vec::new();
    let mut i: usize = 0;
    while i < v.len()
        invariant
            i <= v.len(),
            instances_view(r@) == instances_view(v@.subrange(0, i as int)).filter(p),
            p == (|m: InstanceModel| m.id != iid@),
        decreases v.len() - i,
    {
        proof {
            assert(v@.subrange(0, i + 1) =~= v@.subrange(0, i as int).push(v@[i as int]));
            assert(instances_view(v@.subrange(0, i as int).push(v@[i as int])) =~= instances_view(
                v@.subrange(0, i as int),
            ).push(v@[i as int]@));
            lemma_filter_push(instances_view(v@.subrange(0, i as int)), p, v@[i as int]@);
        }
        if !str_eq(v[i].id.as_str(), iid) {
            let d = v[i].duplicate();
            r.push(d);
            proof {
                assert(instances_view(r@) =~= instances_view(v@.subrange(0, i + 1)).filter(p));
            }
        }
        i += 1;
    }
    proof {
        assert(v@.subrange(0, v@.len() as int) =~= v@);
    }
    r
}

/// The instances of a list whose status is `Up`.
pub fn available_instances(v: &Vec<ServiceInstance>) -> (r: Vec<ServiceInstance>)
    ensures
        instances_view(r@) == spec_available(instances_view(v@)),
{
    let ghost p = |m: InstanceModel| m.status is Up;
    let mut r: Vec<ServiceInstance> = Vec::new();
    let mut i: usize = 0;
    while i < v.len()
        invariant
            i <= v.len(),
            instances_view(r@) == instances_view(v@.subrange(0, i as int)).filter(p),
            p == (|m: InstanceModel| m.status is Up),
        decreases v.len() - i,
    {
        proof {
            assert(v@.subrange(0, i + 1) =~= v@.subrange(0, i as int).push(v@[i as int]));
            assert(instances_view(v@.subrange(0, i as int).push(v@[i as int])) =~= instances_view(
                v@.subrange(0, i as int),
            ).push(v@[i as int]@));
            lemma_filter_push(instances_view(v@.subrange(0, i as int)), p, v@[i as int]@);
        }
        if v[i].is_available() {
            let d = v[i].duplicate();
            r.push(d);
            proof {
                assert(instances_view(r@) =~= instances_view(v@.subrange(0, i + 1)).filter(p));
            }
        }
        i += 1;
    }
    proof {
        assert(v@.subrange(0, v@.len() as int) =~= v@);
    }
    r
}

/// Removes instances whose status is `Down`.
fn cleanup_list(v: &Vec<ServiceInstance>) -> (r: Vec<ServiceInstance>)
    ensures
        instances_view(r@) == instances_view(v@).filter(|m: InstanceModel| !(m.status is Down)),
{
    let ghost p = |m: InstanceModel| !(m.status is Down);
    let mut r: Vec<ServiceInstance> = Vec::new();
    let mut i: usize = 0;
    while i < v.len()
        invariant
            i <= v.len(),
            instances_view(r@) == instances_view(v@.subrange(0, i as int)).filter(p),
            p == (|m: InstanceModel| !(m.status is Down)),
        decreases v.len() - i,
    {
        proof {
            assert(v@.subrange(0, i + 1) =~= v@.subrange(0, i as int).push(v@[i as int]));
            assert(instances_view(v@.subrange(0, i as int).push(v@[i as int])) =~= instances_view(
                v@.subrange(0, i as int),
            ).push(v@[i as int]@));
            lemma_filter_push(instances_view(v@.subrange(0, i as int)), p, v@[i as int]@);
        }
        if !matches!(v[i].status, InstanceStatus::Down) {
            let d = v[i].duplicate();
            r.push(d);
            proof {
                assert(instances_view(r@) =~= instances_view(v@.subrange(0, i + 1)).filter(p));
            }
        }
        i += 1;
    }
    proof {
        assert(v@.subrange(0, v@.len() as int) =~= v@);
    }
    r
}

/// Applies a heartbeat to every instance of the list with the given id and
/// reports whether one was found.
fn heartbeat_list(v: &Vec<ServiceInstance>, iid: &str, now: u64) -> (r: (
    Vec<ServiceInstance>,
    bool,
))
    ensures
        instances_view(r.0@) == instances_view(v@).map_values(
            |m: InstanceModel|
                if m.id == iid@ {
                    spec_heartbeat_instance(m, now as int)
                } else {
                    m
                },
        ),
        r.1 == exists|k: int|
            0 <= k < v@.len() && (#[trigger] instances_view(v@)[k]).id == iid@,
{
    let mut r: Vec<ServiceInstance> = Vec::new();
    let mut found = false;
    let mut i: usize = 0;
    while i < v.len()
        invariant
            i <= v.len(),
            r@.len() == i,
            forall|j: int|
                0 <= j < i ==> (#[trigger] r@[j])@ == if v@[j]@.id == iid@ {
                    spec_heartbeat_instance(v@[j]@, now as int)
                } else {
                    v@[j]@
                },
            found == exists|k: int|
                0 <= k < i && (#[trigger] instances_view(v@)[k]).id == iid@,
        decreases v.len() - i,
    {
        let mut d = v[i].duplicate();
        if str_eq(d.id.as_str(), iid) {
            d.update_heartbeat(now);
            found = true;
            proof {
                assert(instances_view(v@)[i as int].id == iid@);
            }
        }
        r.push(d);
        i += 1;
    }
    proof {
        assert(instances_view(r@) =~= instances_view(v@).map_values(
            |m: InstanceModel|
                if m.id == iid@ {
                    spec_heartbeat_instance(m, now as int)
                } else {
                    m
                },
        ));
    }
    (r, found)
}

/// Applies one health-check tick to every instance of the list.
fn tick_list(v: &Vec<ServiceInstance>, now: u64, timeout: u64) -> (r: Vec<ServiceInstance>)
    ensures
        instances_view(r@) == instances_view(v@).map_values(
            |m: InstanceModel| spec_tick_instance(m, now as int, timeout as int),
        ),
{
    let mut r: Vec<ServiceInstance> = Vec::new();
    let mut i: usize = 0;
    while i < v.len()
        invariant
            i <= v.len(),
            r@.len() == i,
            forall|j: int|
                0 <= j < i ==> (#[trigger] r@[j])@ == spec_tick_instance(
                    v@[j]@,
                    now as int,
                    timeout as int,
                ),
        decreases v.len() - i,
    {
        let mut d = v[i].duplicate();
        d.tick(now, timeout);
        r.push(d);
        i += 1;
    }
    proof {
        assert(instances_view(r@) =~= instances_view(v@).map_values(
            |m: InstanceModel| spec_tick_instance(m, now as int, timeout as int),
        ));
    }
    r
}

/// Whether every instance of the list carries the given service id.
fn all_carry_service_id(instances: &Vec<ServiceInstance>, service_id: &str) -> (r: bool)
    ensures
        r == (forall|k: int|
            0 <= k < instances@.len() ==> (#[trigger] instances_view(instances@)[k]).service_id
                == service_id@),
{
    let mut i: usize = 0;
    while i < instances.len()
        invariant
            i <= instances.len(),
            forall|k: int|
                0 <= k < i ==> (#[trigger] instances_view(instances@)[k]).service_id
                    == service_id@,
        decreases instances.len() - i,
    {
        if !str_eq(instances[i].service_id.as_str(), service_id) {
            proof {
                assert(instances_view(instances@)[i as int].service_id != service_id@);
            }
            return false;
        }
        i += 1;
    }
    true
}

impl Discovery {
    /// Distinct services have distinct ids.
    pub open spec fn wf(&self) -> bool {
        forall|j: int, k: int|
            0 <= j < k < self@.len() ==> (#[trigger] self@[j]).service_id != (
            #[trigger] self@[k]).service_id
    }

    /// The view of the discovery map.
    pub open spec fn view(&self) -> Seq<GroupModel> {
        groups_view(self.services@)
    }

    /// An empty discovery map.
    pub fn new() -> (r: Discovery)
        ensures
            r@ == Seq::<GroupModel>::empty(),
            r.wf(),
    {
        let r = Discovery { services: Vec::new() };
        proof {
            assert(r@ =~= Seq::<GroupModel>::empty());
        }
        r
    }

    /// The index of the group for a service id, if one exists.
    fn find_group(&self, service_id: &str) -> (r: Option<usize>)
        ensures
            match r {
                Some(j) => j < self.services@.len() && self@[j as int].service_id == service_id@,
                None => !spec_has_group(self@, service_id@),
            },
    {
        let mut i: usize = 0;
        while i < self.services.len()
            invariant
                i <= self.services.len(),
                forall|j: int| 0 <= j < i ==> (#[trigger] self@[j]).service_id != service_id@,
            decreases self.services.len() - i,
        {
            if str_eq(self.services[i].service_id.as_str(), service_id) {
                return Some(i);
            }
            i += 1;
        }
        None
    }

    /// Registers a service with an initial instance list. Every instance must
    /// carry the service's id, else the whole request is rejected. When the
    /// service already exists its current list is kept and returned;
    /// otherwise the given list is installed and returned.
    pub fn register_service(&mut self, service_id: &str, instances: Vec<ServiceInstance>) -> (r:
        Result<Vec<ServiceInstance>, ()>)
        requires
            old(self).wf(),
        ensures
            final (self).wf(),
            match r {
                Err(_) => final (self)@ == old(self)@ && (exists|k: int|
                    0 <= k < instances@.len() && (#[trigger] instances_view(instances@)[k]).service_id
                        != service_id@),
                Ok(got) => (forall|k: int|
                    0 <= k < instances@.len() ==> (#[trigger] instances_view(instances@)[k]).service_id
                        == service_id@) && if spec_has_group(old(self)@, service_id@) {
                    final (self)@ == old(self)@ && (forall|j: int|
                        0 <= j < old(self)@.len() && (#[trigger] old(self)@[j]).service_id
                            == service_id@ ==> instances_view(got@) == old(self)@[j].instances)
                } else {
                    final (self)@ == old(self)@.push(
                        GroupModel {
                            service_id: service_id@,
                            instances: instances_view(instances@),
                        },
                    ) && instances_view(got@) == instances_view(instances@)
                },
            },
    {
        if !all_carry_service_id(&instances, service_id) {
            return Err(());
        }
        match self.find_group(service_id) {
            Some(j) => {
                let got = clone_instances(&self.services[j].instances);
                proof {
                    assert(forall|g: int|
                        0 <= g < old(self)@.len() && (#[trigger] old(self)@[g]).service_id
                            == service_id@ ==> g == j as int);
                }
                Ok(got)
            },
            None => {
                let ghost ims = instances_view(instances@);
                let got = clone_instances(&instances);
                self.services.push(ServiceGroup { service_id: service_id.to_owned(), instances });
                proof {
                    assert(final (self)@ =~= old(self)@.push(
                        GroupModel { service_id: service_id@, instances: ims },
                    ));
                    assert forall|j: int, k: int| 0 <= j < k < final (self)@.len() implies (
                    #[trigger] final (self)@[j]).service_id != (
                    #[trigger] final (self)@[k]).service_id by {
                        if k == final (self)@.len() - 1 {
                            assert(final (self)@[j] == old(self)@[j]);
                        }
                    }
                }
                Ok(got)
            },
        }
    }

    /// Removes a service and all its instances.
    pub fn deregister_service(&mut self, service_id: &str)
        requires
            old(self).wf(),
        ensures
            final (self).wf(),
            final (self)@ == old(self)@.filter(
                |g: GroupModel| g.service_id != service_id@,
            ),
    {
        let ghost p = |g: GroupModel| g.service_id != service_id@;
        let mut kept: Vec<ServiceGroup> = Vec::new();
        let n = self.services.len();
        let mut i: usize = 0;
        while i < n
            invariant
                i <= n,
                n == self.services@.len(),
                old(self).services@ == self.services@,
                groups_view(kept@) == groups_view(self.services@.subrange(0, i as int)).filter(p),
                p == (|g: GroupModel| g.service_id != service_id@),
            decreases n - i,
        {
            proof {
                assert(self.services@.subrange(0, i + 1) =~= self.services@.subrange(
                    0,
                    i as int,
                ).push(self.services@[i as int]));
                assert(groups_view(self.services@.subrange(0, i as int).push(
                    self.services@[i as int],
                )) =~= groups_view(self.services@.subrange(0, i as int)).push(
                    self.services@[i as int]@,
                ));
                lemma_filter_push(
                    groups_view(self.services@.subrange(0, i as int)),
                    p,
                    self.services@[i as int]@,
                );
            }
            if !str_eq(self.services[i].service_id.as_str(), service_id) {
                let g = ServiceGroup {
                    service_id: self.services[i].service_id.clone(),
                    instances: clone_instances(&self.services[i].instances),
                };
                proof {
                    assert(g@ =~= self.services@[i as int]@);
                }
                kept.push(g);
                proof {
                    assert(groups_view(kept@) =~= groups_view(
                        self.services@.subrange(0, i + 1),
                    ).filter(p));
                }
            }
            i += 1;
        }
        proof {
            assert(self.services@.subrange(0, n as int) =~= self.services@);
        }
        self.services = kept;
        proof {
            lemma_filtered_groups_wf(old(self)@, p);
        }
    }

    /// Registers one instance: any previous instance with the same id under
    /// the same service is replaced; a missing service group is created.
    pub fn register_instance(&mut self, instance: ServiceInstance) -> (r: ServiceInstance)
        requires
            old(self).wf(),
        ensures
            final (self).wf(),
            final (self)@ == spec_register_instance(old(self)@, instance@),
            r@ == instance@,
    {
        let dup = instance.duplicate();
        let sid = instance.service_id.clone();
        match self.find_group(sid.as_str()) {
            Some(j) => {
                let ghost gs = old(self)@;
                let mut kept: Vec<ServiceGroup> = Vec::new();
                let n = self.services.len();
                let mut i: usize = 0;
                while i < n
                    invariant
                        i <= n,
                        n == self.services@.len(),
                        old(self).services@ == self.services@,
                        sid@ == instance@.service_id,
                        instance@ == dup@,
                        kept@.len() == i,
                        forall|g: int|
                            0 <= g < i ==> (#[trigger] kept@[g])@ == if self.services@[g]@.service_id
                                == instance@.service_id {
                                GroupModel {
                                    instances: spec_register_in_list(
                                        self.services@[g]@.instances,
                                        instance@,
                                    ),
                                    ..self.services@[g]@
                                }
                            } else {
                                self.services@[g]@
                            },
                    decreases n - i,
                {
                    if str_eq(self.services[i].service_id.as_str(), sid.as_str()) {
                        let mut insts = filter_out_id(
                            &self.services[i].instances,
                            dup.id.as_str(),
                        );
                        let d2 = dup.duplicate();
                        insts.push(d2);
                        let g = ServiceGroup {
                            service_id: self.services[i].service_id.clone(),
                            instances: insts,
                        };
                        proof {
                            assert(g@.instances =~= spec_register_in_list(
                                self.services@[i as int]@.instances,
                                instance@,
                            ));
                            assert(g@ =~= (GroupModel {
                                instances: spec_register_in_list(
                                    self.services@[i as int]@.instances,
                                    instance@,
                                ),
                                ..self.services@[i as int]@
                            }));
                        }
                        kept.push(g);
                    } else {
                        let g = ServiceGroup {
                            service_id: self.services[i].service_id.clone(),
                            instances: clone_instances(&self.services[i].instances),
                        };
                        proof {
                            assert(g@ =~= self.services@[i as int]@);
                        }
                        kept.push(g);
                    }
                    i += 1;
                }
                self.services = kept;
                proof {
                    assert(spec_has_group(gs, instance@.service_id));
                    assert(final (self)@ =~= spec_register_instance(gs, instance@));
                }
                dup
            },
            None => {
                let mut insts: Vec<ServiceInstance> = Vec::new();
                let d2 = dup.duplicate();
                insts.push(d2);
                let g = ServiceGroup { service_id: sid, instances: insts };
                proof {
                    assert(g@.instances =~= seq![instance@]);
                }
                self.services.push(g);
                proof {
                    assert(final (self)@ =~= old(self)@.push(
                        GroupModel { service_id: instance@.service_id, instances: seq![instance@] },
                    ));
                    assert forall|j: int, k: int| 0 <= j < k < final (self)@.len() implies (
                    #[trigger] final (self)@[j]).service_id != (
                    #[trigger] final (self)@[k]).service_id by {
                        if k == final (self)@.len() - 1 {
                            assert(final (self)@[j] == old(self)@[j]);
                        }
                    }
                }
                dup
            },
        }
    }

    /// Removes one instance from its service's list, if present.
    pub fn deregister_instance(&mut self, service_id: &str, instance_id: &str)
        requires
            old(self).wf(),
        ensures
            final (self).wf(),
            final (self)@ == spec_deregister_instance(old(self)@, service_id@, instance_id@),
    {
        let mut kept: Vec<ServiceGroup> = Vec::new();
        let n = self.services.len();
        let mut i: usize = 0;
        while i < n
            invariant
                i <= n,
                n == self.services@.len(),
                old(self).services@ == self.services@,
                kept@.len() == i,
                forall|g: int|
                    0 <= g < i ==> (#[trigger] kept@[g])@ == if self.services@[g]@.service_id
                        == service_id@ {
                        GroupModel {
                            instances: self.services@[g]@.instances.filter(
                                |m: InstanceModel| m.id != instance_id@,
                            ),
                            ..self.services@[g]@
                        }
                    } else {
                        self.services@[g]@
                    },
            decreases n - i,
        {
            if str_eq(self.services[i].service_id.as_str(), service_id) {
                let insts = filter_out_id(&self.services[i].instances, instance_id);
                let g = ServiceGroup {
                    service_id: self.services[i].service_id.clone(),
                    instances: insts,
                };
                proof {
                    assert(g@ =~= (GroupModel {
                        instances: self.services@[i as int]@.instances.filter(
                            |m: InstanceModel| m.id != instance_id@,
                        ),
                        ..self.services@[i as int]@
                    }));
                }
                kept.push(g);
            } else {
                let g = ServiceGroup {
                    service_id: self.services[i].service_id.clone(),
                    instances: clone_instances(&self.services[i].instances),
                };
                proof {
                    assert(g@ =~= self.services@[i as int]@);
                }
                kept.push(g);
            }
            i += 1;
        }
        self.services = kept;
        proof {
            assert(final (self)@ =~= spec_deregister_instance(
                old(self)@,
                service_id@,
                instance_id@,
            ));
        }
    }

    /// The instances of a service; empty when the service is unknown.
    pub fn get_service_instances(&self, service_id: &str) -> (r: Vec<ServiceInstance>)
        requires
            self.wf(),
        ensures
            !spec_has_group(self@, service_id@) ==> r@.len() == 0,
            forall|j: int|
                0 <= j < self@.len() && (#[trigger] self@[j]).service_id == service_id@
                    ==> instances_view(r@) == self@[j].instances,
    {
        match self.find_group(service_id) {
            Some(j) => {
                let r = clone_instances(&self.services[j].instances);
                proof {
                    assert(forall|g: int|
                        0 <= g < self@.len() && (#[trigger] self@[g]).service_id == service_id@
                            ==> g == j as int);
                }
                r
            },
            None => Vec::new(),
        }
    }

    /// The available (`Up`) instances of a service; empty when unknown.
    pub fn get_available_service_instances(&self, service_id: &str) -> (r: Vec<ServiceInstance>)
        requires
            self.wf(),
        ensures
            !spec_has_group(self@, service_id@) ==> r@.len() == 0,
            forall|j: int|
                0 <= j < self@.len() && (#[trigger] self@[j]).service_id == service_id@
                    ==> instances_view(r@) == spec_available(self@[j].instances),
    {
        match self.find_group(service_id) {
            Some(j) => {
                let r = available_instances(&self.services[j].instances);
                proof {
                    assert(forall|g: int|
                        0 <= g < self@.len() && (#[trigger] self@[g]).service_id == service_id@
                            ==> g == j as int);
                }
                r
            },
            None => Vec::new(),
        }
    }

    /// Records a heartbeat for an instance. Returns `Okay` exactly when the
    /// instance was found; otherwise the map is unchanged and the caller is
    /// told to re-register.
    pub fn heartbeat(&mut self, service_id: &str, instance_id: &str, now: u64) -> (r:
        HeartbeatResult)
        requires
            old(self).wf(),
        ensures
            final (self).wf(),
            final (self)@ == spec_heartbeat_map(old(self)@, service_id@, instance_id@, now as int),
            r == if spec_has_instance(old(self)@, service_id@, instance_id@) {
                HeartbeatResult::Okay
            } else {
                HeartbeatResult::NoInstanceFound
            },
    {
        let mut kept: Vec<ServiceGroup> = Vec::new();
        let mut found = false;
        let n = self.services.len();
        let mut i: usize = 0;
        while i < n
            invariant
                i <= n,
                n == self.services@.len(),
                old(self).services@ == self.services@,
                kept@.len() == i,
                forall|g: int|
                    0 <= g < i ==> (#[trigger] kept@[g])@ == if self.services@[g]@.service_id
                        == service_id@ {
                        GroupModel {
                            instances: self.services@[g]@.instances.map_values(
                                |m: InstanceModel|
                                    if m.id == instance_id@ {
                                        spec_heartbeat_instance(m, now as int)
                                    } else {
                                        m
                                    },
                            ),
                            ..self.services@[g]@
                        }
                    } else {
                        self.services@[g]@
                    },
                found == exists|g: int, k: int|
                    0 <= g < i && 0 <= k < self@[g].instances.len() && (#[trigger] self@[g]).service_id
                        == service_id@ && (#[trigger] self@[g].instances[k]).id == instance_id@,
            decreases n - i,
        {
            if str_eq(self.services[i].service_id.as_str(), service_id) {
                let (insts, f) = heartbeat_list(&self.services[i].instances, instance_id, now);
                let g = ServiceGroup {
                    service_id: self.services[i].service_id.clone(),
                    instances: insts,
                };
                proof {
                    assert(g@ =~= (GroupModel {
                        instances: self.services@[i as int]@.instances.map_values(
                            |m: InstanceModel|
                                if m.id == instance_id@ {
                                    spec_heartbeat_instance(m, now as int)
                                } else {
                                    m
                                },
                        ),
                        ..self.services@[i as int]@
                    }));
                }
                if f {
                    found = true;
                    proof {
                        let k = choose|k: int|
                            0 <= k < self.services@[i as int].instances@.len() && (
                            #[trigger] instances_view(self.services@[i as int].instances@)[k]).id
                                == instance_id@;
                        assert(self@[i as int].instances[k].id == instance_id@);
                    }
                }
                kept.push(g);
            } else {
                let g = ServiceGroup {
                    service_id: self.services[i].service_id.clone(),
                    instances: clone_instances(&self.services[i].instances),
                };
                proof {
                    assert(g@ =~= self.services@[i as int]@);
                }
                kept.push(g);
            }
            i += 1;
        }
        self.services = kept;
        proof {
            assert(final (self)@ =~= spec_heartbeat_map(
                old(self)@,
                service_id@,
                instance_id@,
                now as int,
            ));
        }
        if found {
            HeartbeatResult::Okay
        } else {
            HeartbeatResult::NoInstanceFound
        }
    }

    /// One health-check tick over every instance.
    pub fn tick(&mut self, now: u64, timeout: u64)
        requires
            old(self).wf(),
        ensures
            final (self).wf(),
            final (self)@ == spec_tick_map(old(self)@, now as int, timeout as int),
    {
        let mut kept: Vec<ServiceGroup> = Vec::new();
        let n = self.services.len();
        let mut i: usize = 0;
        while i < n
            invariant
                i <= n,
                n == self.services@.len(),
                old(self).services@ == self.services@,
                kept@.len() == i,
                forall|g: int|
                    0 <= g < i ==> (#[trigger] kept@[g])@ == (GroupModel {
                        instances: self.services@[g]@.instances.map_values(
                            |m: InstanceModel| spec_tick_instance(m, now as int, timeout as int),
                        ),
                        ..self.services@[g]@
                    }),
            decreases n - i,
        {
            let insts = tick_list(&self.services[i].instances, now, timeout);
            let g = ServiceGroup {
                service_id: self.services[i].service_id.clone(),
                instances: insts,
            };
            proof {
                assert(g@ =~= (GroupModel {
                    instances: self.services@[i as int]@.instances.map_values(
                        |m: InstanceModel| spec_tick_instance(m, now as int, timeout as int),
                    ),
                    ..self.services@[i as int]@
                }));
            }
            kept.push(g);
            i += 1;
        }
        self.services = kept;
        proof {
            assert(final (self)@ =~= spec_tick_map(old(self)@, now as int, timeout as int));
        }
    }

    /// One cleanup pass: every `Down` instance is removed.
    pub fn cleanup(&mut self)
        requires
            old(self).wf(),
        ensures
            final (self).wf(),
            final (self)@ == spec_cleanup_map(old(self)@),
    {
        let mut kept: Vec<ServiceGroup> = Vec::new();
        let n = self.services.len();
        let mut i: usize = 0;
        while i < n
            invariant
                i <= n,
                n == self.services@.len(),
                old(self).services@ == self.services@,
                kept@.len() == i,
                forall|g: int|
                    0 <= g < i ==> (#[trigger] kept@[g])@ == (GroupModel {
                        instances: self.services@[g]@.instances.filter(
                            |m: InstanceModel| !(m.status is Down),
                        ),
                        ..self.services@[g]@
                    }),
            decreases n - i,
        {
            let insts = cleanup_list(&self.services[i].instances);
            let g = ServiceGroup {
                service_id: self.services[i].service_id.clone(),
                instances: insts,
            };
            proof {
                assert(g@ =~= (GroupModel {
                    instances: self.services@[i as int]@.instances.filter(
                        |m: InstanceModel| !(m.status is Down),
                    ),
                    ..self.services@[i as int]@
                }));
            }
            kept.push(g);
            i += 1;
        }
        self.services = kept;
        proof {
            assert(final (self)@ =~= spec_cleanup_map(old(self)@));
        }
    }
}

/// A filtered group sequence keeps distinct service ids distinct.
proof fn lemma_filtered_groups_wf(gs: Seq<GroupModel>, p: spec_fn(GroupModel) -> bool)
    requires
        forall|j: int, k: int|
            0 <= j < k < gs.len() ==> (#[trigger] gs[j]).service_id != (#[trigger] gs[k]).service_id,
    ensures
        forall|j: int, k: int|
            0 <= j < k < gs.filter(p).len() ==> (#[trigger] gs.filter(p)[j]).service_id != (
            #[trigger] gs.filter(p)[k]).service_id,
    decreases gs.len(),
{
    reveal(Seq::filter);
    if gs.len() > 0 {
        let d = gs.drop_last();
        lemma_filtered_groups_wf(d, p);
        broadcast use vstd::seq_lib::group_filter_ensures;

        if p(gs.last()) {
            let f = gs.filter(p);
            let df = d.filter(p);
            assert(f == df.push(gs.last()));
            assert forall|j: int, k: int| 0 <= j < k < f.len() implies (
            #[trigger] f[j]).service_id != (#[trigger] f[k]).service_id by {
                if k < f.len() - 1 {
                    assert(f[j] == df[j] && f[k] == df[k]);
                } else {
                    assert(f[k] == gs.last());
                    assert(f[j] == df[j]);
                    assert(df.contains(df[j]));
                    d.lemma_filter_contains_rev(p, df[j]);
                    let jj = choose|jj: int| 0 <= jj < d.len() && d[jj] == df[j];
                    assert(gs[jj] == df[j]);
                    assert(gs[jj].service_id != gs[gs.len() - 1].service_id);
                }
            }
        } else {
            assert(gs.filter(p) == d.filter(p));
        }
    } else {
        assert(gs.filter(p) =~= Seq::<GroupModel>::empty());
    }
}

} // verus!
