//! Service instances and their health state machine: heartbeats, timeout
//! ticks, decline to `Down`, and administrative offline/online moves.

use vstd::prelude::*;
use vstd::string::StringExecFns;
use vstd::utf8::encode_utf8;

use crate::digest::{md5_hex, md5_hex_of};
use crate::text::{endpoint_key, spec_endpoint_key};

verus! {

/// Health of a service instance.
///
/// `Ready` instances have registered but not yet heartbeated and are not
/// handed to clients. `Up` instances are available. A missed heartbeat period
/// moves `Up` to `Sick(1)`; each further miss increments the count, and after
/// `Sick(3)` the next check moves the instance to `Down`, where the cleanup
/// pass removes it. `Offline` is entered and left only by an administrator.
#[derive(Clone, Copy, Debug, PartialEq, Eq, Structural)]
pub enum InstanceStatus {
    Ready,
    Up,
    Sick(u32),
    Down,
    Offline,
}

/// Outcome of a heartbeat request.
#[derive(Clone, Copy, Debug, PartialEq, Eq, Structural)]
pub enum HeartbeatResult {
    Okay,
    NoInstanceFound,
    Unknown,
}

/// How many missed heartbeat periods a sick instance survives.
pub const MAX_LOST_HEARTBEATS: u32 = 3;

/// Mathematical model of a service instance.
#[verifier::ext_equal]
pub ghost struct InstanceModel {
    pub id: Seq<char>,
    pub service_id: Seq<char>,
    pub ip: Seq<char>,
    pub port: int,
    pub status: InstanceStatus,
    pub meta: Seq<(Seq<char>, Seq<char>)>,
    pub last_heartbeat: int,
    pub lost_heartbeats: int,
}

/// A concrete network endpoint providing a service. Times are milliseconds
/// since the epoch, supplied by the caller.
pub struct ServiceInstance {
    pub id: String,
    pub service_id: String,
    pub ip: String,
    pub port: u16,
    pub status: InstanceStatus,
    pub meta: Vec<(String, String)>,
    pub last_heartbeat: u64,
    pub lost_heartbeats: u32,
}

/// The view of a string-to-string metadata map.
pub open spec fn meta_view(meta: Seq<(String, String)>) -> Seq<(Seq<char>, Seq<char>)> {
    meta.map_values(|p: (String, String)| (p.0@, p.1@))
}

impl View for ServiceInstance {
    type V = InstanceModel;

    open spec fn view(&self) -> InstanceModel {
        InstanceModel {
            id: self.id@,
            service_id: self.service_id@,
            ip: self.ip@,
            port: self.port as int,
            status: self.status,
            meta: meta_view(self.meta@),
            last_heartbeat: self.last_heartbeat as int,
            lost_heartbeats: self.lost_heartbeats as int,
        }
    }
}

/// The deterministic instance id: the MD5 hex of `ip:port`.
pub open spec fn spec_instance_id(ip: Seq<char>, port: int) -> Seq<char> {
    md5_hex_of(encode_utf8(spec_endpoint_key(ip, port)))
}

/// An instance after receiving a heartbeat: available again, with the miss
/// counter cleared and the heartbeat time updated.
pub open spec fn spec_heartbeat_instance(i: InstanceModel, now: int) -> InstanceModel {
    InstanceModel { status: InstanceStatus::Up, lost_heartbeats: 0, last_heartbeat: now, ..i }
}


/// An instance marked alive by an applied (replicated) heartbeat: `Up` with
/// the miss counter cleared. The heartbeat timestamp is node-local and is
/// not part of the replicated effect.
pub open spec fn spec_mark_up_instance(i: InstanceModel) -> InstanceModel {
    InstanceModel { status: InstanceStatus::Up, lost_heartbeats: 0, ..i }
}

/// Whether an instance's last heartbeat is more than `timeout` ms in the past.
pub open spec fn spec_timed_out(i: InstanceModel, now: int, timeout: int) -> bool {
    now - i.last_heartbeat > timeout
}

/// One health-check tick. Offline instances are untouched; an instance that
/// has already missed the limit goes `Down`; otherwise a timed-out instance
/// records one more miss and is `Sick` with the new count.
pub open spec fn spec_tick_instance(i: InstanceModel, now: int, timeout: int) -> InstanceModel {
    if i.status is Offline {
        i
    } else if i.lost_heartbeats >= MAX_LOST_HEARTBEATS {
        InstanceModel { status: InstanceStatus::Down, ..i }
    } else if spec_timed_out(i, now, timeout) {
        InstanceModel {
            status: InstanceStatus::Sick((i.lost_heartbeats + 1) as u32),
            lost_heartbeats: i.lost_heartbeats + 1,
            ..i
        }
    } else {
        i
    }
}

/// Copies a metadata map.
pub fn clone_meta(meta: &Vec<(String, String)>) -> (r: Vec<(String, String)>)
    ensures
        meta_view(r@) == meta_view(meta@),
{
    let mut r: Vec<(String, String)> = Vec::new();
    let mut i: usize = 0;
    while i < meta.len()
        invariant
            i <= meta.len(),
            r@.len() == i,
            forall|j: int| 0 <= j < i ==> (#[trigger] r@[j]).0@ == meta@[j].0@ && r@[j].1@
                == meta@[j].1@,
        decreases meta.len() - i,
    {
        let k = meta[i].0.clone();
        let v = meta[i].1.clone();
        r.push((k, v));
        i += 1;
    }
    proof {
        assert(meta_view(r@) =~= meta_view(meta@));
    }
    r
}

impl ServiceInstance {
    /// The deterministic instance id, the MD5 hex of `ip:port`, so that
    /// registering the same endpoint twice yields the same id.
    pub fn generate_id(ip: &str, port: u16) -> (r: String)
        ensures
            r@ == spec_instance_id(ip@, port as int),
            r@.len() == 32,
    {
        let key = endpoint_key(ip, port);
        md5_hex(key.as_str())
    }

    /// A freshly registered instance: deterministic id, status `Ready`, no
    /// missed heartbeats, last heartbeat set to the given time.
    pub fn new(service_id: &str, ip: &str, port: u16, meta: Vec<(String, String)>, now: u64) -> (r:
        ServiceInstance)
        ensures
            r@ == (InstanceModel {
                id: spec_instance_id(ip@, port as int),
                service_id: service_id@,
                ip: ip@,
                port: port as int,
                status: InstanceStatus::Ready,
                meta: meta_view(meta@),
                last_heartbeat: now as int,
                lost_heartbeats: 0,
            }),
    {
        let r = ServiceInstance {
            id: Self::generate_id(ip, port),
            service_id: service_id.to_owned(),
            ip: ip.to_owned(),
            port,
            status: InstanceStatus::Ready,
            meta,
            last_heartbeat: now,
            lost_heartbeats: 0,
        };
        proof {
            assert(r@ =~= (InstanceModel {
                id: spec_instance_id(ip@, port as int),
                service_id: service_id@,
                ip: ip@,
                port: port as int,
                status: InstanceStatus::Ready,
                meta: meta_view(meta@),
                last_heartbeat: now as int,
                lost_heartbeats: 0,
            }));
        }
        r
    }

    /// A field-for-field copy.
    pub fn duplicate(&self) -> (r: ServiceInstance)
        ensures
            r@ == self@,
    {
        let r = ServiceInstance {
            id: self.id.clone(),
            service_id: self.service_id.clone(),
            ip: self.ip.clone(),
            port: self.port,
            status: self.status,
            meta: clone_meta(&self.meta),
            last_heartbeat: self.last_heartbeat,
            lost_heartbeats: self.lost_heartbeats,
        };
        proof {
            assert(r@ =~= self@);
        }
        r
    }

    /// Records a heartbeat: the instance is `Up`, the miss counter is reset.
    pub fn update_heartbeat(&mut self, now: u64)
        ensures
            final (self)@ == spec_heartbeat_instance(old(self)@, now as int),
    {
        self.last_heartbeat = now;
        self.status = InstanceStatus::Up;
        self.lost_heartbeats = 0;
        proof {
            assert(final (self)@ =~= spec_heartbeat_instance(old(self)@, now as int));
        }
    }

    /// Whether the last heartbeat is more than `timeout` ms before `now`.
    pub fn is_heartbeat_timeout(&self, now: u64, timeout: u64) -> (r: bool)
        ensures
            r == spec_timed_out(self@, now as int, timeout as int),
    {
        if now <= self.last_heartbeat {
            false
        } else {
            now - self.last_heartbeat > timeout
        }
    }

    /// Only `Up` instances are handed to clients.
    pub fn is_available(&self) -> (r: bool)
        ensures
            r == (self@.status is Up),
    {
        matches!(self.status, InstanceStatus::Up)
    }

    /// One health-check tick at the given time.
    pub fn tick(&mut self, now: u64, timeout: u64)
        ensures
            final (self)@ == spec_tick_instance(old(self)@, now as int, timeout as int),
    {
        if matches!(self.status, InstanceStatus::Offline) {
        } else if self.lost_heartbeats >= MAX_LOST_HEARTBEATS {
            self.status = InstanceStatus::Down;
        } else if self.is_heartbeat_timeout(now, timeout) {
            self.lost_heartbeats = self.lost_heartbeats + 1;
            self.status = InstanceStatus::Sick(self.lost_heartbeats);
        }
        proof {
            assert(final (self)@ =~= spec_tick_instance(old(self)@, now as int, timeout as int));
        }
    }

    /// Administrative move to `Offline`; the instance is neither cleaned up
    /// nor recovered automatically from there.
    pub fn set_offline(&mut self)
        ensures
            final (self)@ == (InstanceModel { status: InstanceStatus::Offline, ..old(self)@ }),
    {
        self.status = InstanceStatus::Offline;
        proof {
            assert(final (self)@ =~= (InstanceModel {
                status: InstanceStatus::Offline,
                ..old(self)@
            }));
        }
    }

    /// Administrative move back from `Offline`: the instance starts over as
    /// `Ready` and must heartbeat before it is available again.
    pub fn set_online(&mut self)
        ensures
            final (self)@ == (InstanceModel { status: InstanceStatus::Ready, ..old(self)@ }),
    {
        self.status = InstanceStatus::Ready;
        proof {
            assert(final (self)@ =~= (InstanceModel {
                status: InstanceStatus::Ready,
                ..old(self)@
            }));
        }
    }
}

/// A heartbeat always recovers a sick instance: from any non-`Offline` state,
/// in particular `Sick(n)`, a heartbeat moves the instance to `Up` and resets
/// the miss counter to zero.
pub proof fn lemma_heartbeat_recovers(i: InstanceModel, now: int)
    ensures
        spec_heartbeat_instance(i, now).status is Up,
        spec_heartbeat_instance(i, now).lost_heartbeats == 0,
        spec_heartbeat_instance(i, now).id == i.id,
        spec_heartbeat_instance(i, now).meta == i.meta,
{
}

/// An instance that is `Up` and stops heartbeating declines tick by tick:
/// after k missed checks it is `Sick(k)` (k = 1, 2, 3), one more check moves
/// it to `Down`, and a `Down` instance stays `Down`.
pub proof fn lemma_decline_without_heartbeat(
    i: InstanceModel,
    t1: int,
    t2: int,
    t3: int,
    t4: int,
    timeout: int,
)
    requires
        i.status is Up,
        i.lost_heartbeats == 0,
        t1 - i.last_heartbeat > timeout,
        t2 - i.last_heartbeat > timeout,
        t3 - i.last_heartbeat > timeout,
        t4 - i.last_heartbeat > timeout,
    ensures
        ({
            let s1 = spec_tick_instance(i, t1, timeout);
            let s2 = spec_tick_instance(s1, t2, timeout);
            let s3 = spec_tick_instance(s2, t3, timeout);
            let s4 = spec_tick_instance(s3, t4, timeout);
            s1.status == InstanceStatus::Sick(1u32) && s2.status == InstanceStatus::Sick(2u32)
                && s3.status == InstanceStatus::Sick(3u32) && s4.status is Down && spec_tick_instance(
                s4,
                t4,
                timeout,
            ).status is Down
        }),
{
}

} // verus!
