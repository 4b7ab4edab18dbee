//! Durable service rows: a service survives restarts and exists independently
//! of its instances, which are re-learned from heartbeats.

use vstd::prelude::*;
use vstd::string::StringExecFns;

use crate::discovery::{clone_meta, meta_view};
use crate::seqs::lemma_filter_push;
use crate::text::str_eq;

verus! {

/// A durable service row.
pub struct Service {
    pub service_id: String,
    pub namespace_id: String,
    pub meta: Vec<(String, String)>,
    pub create_time: i64,
    pub update_time: i64,
}

/// Mathematical model of a service row.
#[verifier::ext_equal]
pub ghost struct ServiceModel {
    pub service_id: Seq<char>,
    pub namespace_id: Seq<char>,
    pub meta: Seq<(Seq<char>, Seq<char>)>,
    pub create_time: int,
    pub update_time: int,
}

impl View for Service {
    type V = ServiceModel;

    open spec fn view(&self) -> ServiceModel {
        ServiceModel {
            service_id: self.service_id@,
            namespace_id: self.namespace_id@,
            meta: meta_view(self.meta@),
            create_time: self.create_time as int,
            update_time: self.update_time as int,
        }
    }
}

impl Service {
    /// A field-for-field copy.
    pub fn duplicate(&self) -> (r: Service)
        ensures
            r@ == self@,
    {
        let r = Service {
            service_id: self.service_id.clone(),
            namespace_id: self.namespace_id.clone(),
            meta: clone_meta(&self.meta),
            create_time: self.create_time,
            update_time: self.update_time,
        };
        proof {
            assert(r@ =~= self@);
        }
        r
    }
}

/// The view of a service table.
pub open spec fn services_view(s: Seq<Service>) -> Seq<ServiceModel> {
    s.map_values(|x: Service| x@)
}

/// Whether a service row with the key exists.
pub open spec fn spec_has_service(ss: Seq<ServiceModel>, ns: Seq<char>, sid: Seq<char>) -> bool {
    exists|j: int|
        0 <= j < ss.len() && (#[trigger] ss[j]).namespace_id == ns && ss[j].service_id == sid
}

/// The rows after a service registers: an existing row takes the new
/// metadata and update time but keeps its creation time; a new row is
/// appended.
pub open spec fn spec_upsert_service(ss: Seq<ServiceModel>, s: ServiceModel) -> Seq<ServiceModel> {
    if spec_has_service(ss, s.namespace_id, s.service_id) {
        ss.map_values(
            |m: ServiceModel|
                if m.namespace_id == s.namespace_id && m.service_id == s.service_id {
                    ServiceModel { create_time: m.create_time, ..s }
                } else {
                    m
                },
        )
    } else {
        ss.push(s)
    }
}

/// The rows after a service deregisters.
pub open spec fn spec_delete_service(ss: Seq<ServiceModel>, ns: Seq<char>, sid: Seq<char>) -> Seq<
    ServiceModel,
> {
    ss.filter(|m: ServiceModel| !(m.namespace_id == ns && m.service_id == sid))
}

/// The durable service table.
pub struct ServiceStore {
    pub services: Vec<Service>,
}

impl ServiceStore {
    /// The view of the table.
    pub open spec fn view(&self) -> Seq<ServiceModel> {
        services_view(self.services@)
    }

    /// An empty table.
    pub fn new() -> (r: ServiceStore)
        ensures
            r@ == Seq::<ServiceModel>::empty(),
    {
        let r = ServiceStore { services: Vec::new() };
        proof {
            assert(r@ =~= Seq::<ServiceModel>::empty());
        }
        r
    }

    /// Inserts or updates a service row.
    pub fn upsert_service(&mut self, s: Service)
        ensures
            final (self)@ == spec_upsert_service(old(self)@, s@),
    {
        let mut found = false;
        let mut i: usize = 0;
        while i < self.services.len()
            invariant
                i <= self.services@.len(),
                old(self).services@ == self.services@,
                found == exists|j: int|
                    0 <= j < i && (#[trigger] self@[j]).namespace_id == s@.namespace_id
                        && self@[j].service_id == s@.service_id,
            decreases self.services@.len() - i,
        {
            if str_eq(self.services[i].namespace_id.as_str(), s.namespace_id.as_str()) && str_eq(
                self.services[i].service_id.as_str(),
                s.service_id.as_str(),
            ) {
                found = true;
                proof {
                    assert(self@[i as int].namespace_id == s@.namespace_id);
                }
            }
            i += 1;
        }
        if found {
            let mut kept: Vec<Service> = Vec::new();
            let mut j: usize = 0;
            while j < self.services.len()
                invariant
                    j <= self.services@.len(),
                    old(self).services@ == self.services@,
                    kept@.len() == j,
                    forall|g: int|
                        0 <= g < j ==> (#[trigger] kept@[g])@ == if self@[g].namespace_id
                            == s@.namespace_id && self@[g].service_id == s@.service_id {
                            ServiceModel { create_time: self@[g].create_time, ..s@ }
                        } else {
                            self@[g]
                        },
                decreases self.services@.len() - j,
            {
                if str_eq(self.services[j].namespace_id.as_str(), s.namespace_id.as_str())
                    && str_eq(self.services[j].service_id.as_str(), s.service_id.as_str()) {
                    let mut d = s.duplicate();
                    d.create_time = self.services[j].create_time;
                    proof {
                        assert(d@ =~= (ServiceModel {
                            create_time: self@[j as int].create_time,
                            ..s@
                        }));
                    }
                    kept.push(d);
                } else {
                    let d = self.services[j].duplicate();
                    kept.push(d);
                }
                j += 1;
            }
            self.services = kept;
            proof {
                assert(final (self)@ =~= spec_upsert_service(old(self)@, s@));
            }
        } else {
            self.services.push(s);
            proof {
                assert(final (self)@ =~= old(self)@.push(s@));
            }
        }
    }

    /// Removes a service row.
    pub fn delete_service(&mut self, namespace_id: &str, service_id: &str)
        ensures
            final (self)@ == spec_delete_service(old(self)@, namespace_id@, service_id@),
    {
        let ghost p = |m: ServiceModel| !(m.namespace_id == namespace_id@ && m.service_id
            == service_id@);
        let mut kept: Vec<Service> = Vec::new();
        let mut i: usize = 0;
        while i < self.services.len()
            invariant
                i <= self.services@.len(),
                old(self).services@ == self.services@,
                services_view(kept@) == services_view(self.services@.subrange(0, i as int)).filter(
                    p,
                ),
                p == (|m: ServiceModel| !(m.namespace_id == namespace_id@ && m.service_id
                    == service_id@)),
            decreases self.services@.len() - i,
        {
            proof {
                assert(self.services@.subrange(0, i + 1) =~= self.services@.subrange(
                    0,
                    i as int,
                ).push(self.services@[i as int]));
                assert(services_view(self.services@.subrange(0, i as int).push(
                    self.services@[i as int],
                )) =~= services_view(self.services@.subrange(0, i as int)).push(
                    self.services@[i as int]@,
                ));
                lemma_filter_push(
                    services_view(self.services@.subrange(0, i as int)),
                    p,
                    self.services@[i as int]@,
                );
            }
            if !(str_eq(self.services[i].namespace_id.as_str(), namespace_id) && str_eq(
                self.services[i].service_id.as_str(),
                service_id,
            )) {
                let d = self.services[i].duplicate();
                kept.push(d);
                proof {
                    assert(services_view(kept@) =~= services_view(
                        self.services@.subrange(0, i + 1),
                    ).filter(p));
                }
            }
            i += 1;
        }
        proof {
            assert(self.services@.subrange(0, self.services@.len() as int) =~= self.services@);
        }
        self.services = kept;
    }

    /// The rows of one namespace, in stored order.
    pub fn list_services(&self, namespace_id: &str) -> (r: Vec<Service>)
        ensures
            services_view(r@) == self@.filter(
                |m: ServiceModel| m.namespace_id == namespace_id@,
            ),
    {
        let ghost p = |m: ServiceModel| m.namespace_id == namespace_id@;
        let mut out: Vec<Service> = Vec::new();
        let mut i: usize = 0;
        while i < self.services.len()
            invariant
                i <= self.services@.len(),
                services_view(out@) == services_view(self.services@.subrange(0, i as int)).filter(
                    p,
                ),
                p == (|m: ServiceModel| m.namespace_id == namespace_id@),
            decreases self.services@.len() - i,
        {
            proof {
                assert(self.services@.subrange(0, i + 1) =~= self.services@.subrange(
                    0,
                    i as int,
                ).push(self.services@[i as int]));
                assert(services_view(self.services@.subrange(0, i as int).push(
                    self.services@[i as int],
                )) =~= services_view(self.services@.subrange(0, i as int)).push(
                    self.services@[i as int]@,
                ));
                lemma_filter_push(
                    services_view(self.services@.subrange(0, i as int)),
                    p,
                    self.services@[i as int]@,
                );
            }
            if str_eq(self.services[i].namespace_id.as_str(), namespace_id) {
                let d = self.services[i].duplicate();
                out.push(d);
                proof {
                    assert(services_view(out@) =~= services_view(
                        self.services@.subrange(0, i + 1),
                    ).filter(p));
                }
            }
            i += 1;
        }
        proof {
            assert(self.services@.subrange(0, self.services@.len() as int) =~= self.services@);
        }
        out
    }
}

} // verus!
