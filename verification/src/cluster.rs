//! Cluster management: the metrics a node reports, the admin tool's node
//! parsing and membership planning, and the forwarding of writes received by
//! a follower to the current leader.

use vstd::prelude::*;
use vstd::string::StringExecFns;
use vstd::string::StringSliceAdditionalSpecFns;
use vstd::utf8::encode_utf8;

use crate::log_store::{LeaderId, LogId};
use crate::state::{spec_apply, CommandModel, StateModel};

verus! {

/// A cluster member's address.
pub struct Node {
    pub addr: String,
}

/// A log position as reported in metrics.
#[derive(Clone, Copy, Debug, PartialEq, Eq, Structural)]
pub struct LogIndex {
    pub leader_id: LeaderId,
    pub index: u64,
}

/// The last snapshot position as reported in metrics.
#[derive(Clone, Copy, Debug, PartialEq, Eq, Structural)]
pub struct Snapshot {
    pub leader_id: LeaderId,
    pub index: u64,
}

/// The last purged position as reported in metrics.
#[derive(Clone, Copy, Debug, PartialEq, Eq, Structural)]
pub struct Purged {
    pub log_id: Option<LogId>,
}

/// One peer's replication progress as reported in metrics.
#[derive(Clone, Copy, Debug, PartialEq, Eq, Structural)]
pub struct Replication {
    pub leader_id: LeaderId,
    pub index: u64,
}

/// The voter sets and member addresses of the cluster.
pub struct Membership {
    pub configs: Vec<Vec<u64>>,
    pub nodes: Vec<(u64, String)>,
}

/// A node's view of the cluster: leader, term, log and apply positions,
/// membership, and per-peer replication progress.
pub struct RaftMetrics {
    pub id: u64,
    pub current_term: u64,
    pub vote: crate::log_store::Vote,
    pub last_log_index: Option<u64>,
    pub last_applied: Option<LogIndex>,
    pub snapshot: Option<Snapshot>,
    pub purged: Option<Purged>,
    pub state: String,
    pub current_leader: Option<u64>,
    pub millis_since_quorum_ack: Option<u64>,
    pub membership: Membership,
    pub replication: Vec<(u64, Option<Replication>)>,
}

impl RaftMetrics {
    /// The current voter set: the first voter config, empty when none is
    /// known.
    pub fn current_voters(&self) -> (r: Vec<u64>)
        ensures
            self.membership.configs@.len() > 0 ==> r@ == self.membership.configs@[0]@,
            self.membership.configs@.len() == 0 ==> r@ == Seq::<u64>::empty(),
    {
        if self.membership.configs.len() > 0 {
            let mut out: Vec<u64> = Vec::new();
            let first = &self.membership.configs[0];
            let mut i: usize = 0;
            while i < first.len()
                invariant
                    i <= first@.len(),
                    out@ == first@.subrange(0, i as int),
                decreases first@.len() - i,
            {
                out.push(first[i]);
                proof {
                    assert(out@ =~= first@.subrange(0, i + 1));
                }
                i += 1;
            }
            proof {
                assert(first@.subrange(0, first@.len() as int) =~= first@);
            }
            out
        } else {
            Vec::new()
        }
    }
}

/// The numeric value of a run of ASCII digit bytes.
pub open spec fn spec_digits_value(bs: Seq<u8>) -> int
    decreases bs.len(),
{
    if bs.len() == 0 {
        0
    } else {
        spec_digits_value(bs.drop_last()) * 10 + (bs.last() - 48)
    }
}

/// Whether every byte is an ASCII digit.
pub open spec fn spec_all_digits(bs: Seq<u8>) -> bool {
    forall|i: int| 0 <= i < bs.len() ==> 48 <= #[trigger] bs[i] <= 57
}

/// Parses a nonempty run of decimal digits that fits the id type.
pub fn parse_u64_digits(bs: &[u8]) -> (r: Option<u64>)
    ensures
        match r {
            Some(v) => bs@.len() > 0 && spec_all_digits(bs@) && v as int == spec_digits_value(bs@),
            None => bs@.len() == 0 || !spec_all_digits(bs@) || spec_digits_value(bs@) > u64::MAX,
        },
{
    if bs.len() == 0 {
        return None;
    }
    let mut acc: u64 = 0;
    let mut i: usize = 0;
    while i < bs.len()
        invariant
            i <= bs@.len(),
            spec_all_digits(bs@.subrange(0, i as int)),
            acc as int == spec_digits_value(bs@.subrange(0, i as int)),
        decreases bs@.len() - i,
    {
        let b = bs[i];
        if !(48 <= b && b <= 57) {
            return None;
        }
        let d = (b - 48) as u64;
        if acc > (u64::MAX - d) / 10 {
            proof {
                assert(acc * 10 + d > u64::MAX) by (nonlinear_arith)
                    requires
                        acc > (u64::MAX - d) / 10,
                        d <= 9,
                        acc <= u64::MAX,
                ;
                if spec_all_digits(bs@) {
                    assert(bs@.subrange(0, i + 1).drop_last() =~= bs@.subrange(0, i as int));
                    assert(spec_digits_value(bs@.subrange(0, i + 1)) == acc * 10 + d);
                    lemma_digits_value_monotonic(bs@, i + 1);
                }
            }
            return None;
        }
        proof {
            assert(acc * 10 + d <= u64::MAX) by (nonlinear_arith)
                requires
                    acc <= (u64::MAX - d) / 10,
                    d <= 9,
            ;
            assert(bs@.subrange(0, i + 1).drop_last() =~= bs@.subrange(0, i as int));
            assert(spec_all_digits(bs@.subrange(0, i + 1)));
        }
        acc = acc * 10 + d;
        i += 1;
    }
    proof {
        assert(bs@.subrange(0, bs@.len() as int) =~= bs@);
    }
    Some(acc)
}

/// Appending digits never decreases the value: if a prefix already exceeds
/// the id range, the whole run does.
proof fn lemma_digits_value_monotonic(bs: Seq<u8>, k: int)
    requires
        0 <= k <= bs.len(),
        spec_all_digits(bs),
    ensures
        spec_digits_value(bs) >= spec_digits_value(bs.subrange(0, k)),
    decreases bs.len() - k,
{
    if k < bs.len() {
        lemma_digits_value_monotonic(bs, k + 1);
        assert(bs.subrange(0, k + 1).drop_last() =~= bs.subrange(0, k));
        assert(spec_all_digits(bs.subrange(0, k)));
        lemma_digits_value_nonneg(bs.subrange(0, k));
        assert(spec_digits_value(bs.subrange(0, k + 1)) == spec_digits_value(bs.subrange(0, k)) * 10
            + (bs[k] - 48));
        assert(spec_digits_value(bs.subrange(0, k)) * 10 >= spec_digits_value(bs.subrange(0, k)))
            by (nonlinear_arith)
            requires
                spec_digits_value(bs.subrange(0, k)) >= 0,
        ;
    } else {
        assert(bs.subrange(0, k) =~= bs);
    }
}

/// A digit run's value is never negative.
proof fn lemma_digits_value_nonneg(bs: Seq<u8>)
    requires
        spec_all_digits(bs),
    ensures
        spec_digits_value(bs) >= 0,
    decreases bs.len(),
{
    if bs.len() > 0 {
        assert(spec_all_digits(bs.drop_last()));
        lemma_digits_value_nonneg(bs.drop_last());
        assert(spec_digits_value(bs.drop_last()) * 10 >= 0) by (nonlinear_arith)
            requires
                spec_digits_value(bs.drop_last()) >= 0,
        ;
    }
}

/// Parses a node argument of the form `id=ip:port` into the numeric node id
/// and the address text.
/// Whether position `k` holds the only `=` of the byte string.
pub open spec fn spec_only_eq_at(bs: Seq<u8>, k: int) -> bool {
    0 <= k < bs.len() && bs[k] == 61 && (forall|j: int|
        0 <= j < bs.len() && j != k ==> bs[j] != 61)
}

/// Parses a node argument of the form `id=ip:port` into the numeric node id
/// and the address text. Accepted exactly when the argument holds a single
/// `=`, a nonempty run of decimal digits that fits the id type before it,
/// and address text after it.
pub fn parse_node(s: &str) -> (r: Result<(u64, String), ()>)
    ensures
        r is Ok <==> (exists|k: int|
            #![all_triggers]
            spec_only_eq_at(s.spec_bytes(), k) && k > 0 && spec_all_digits(
                s.spec_bytes().subrange(0, k),
            ) && spec_digits_value(s.spec_bytes().subrange(0, k)) <= u64::MAX && (exists|
                sc: Seq<char>,
            | encode_utf8(sc) == s.spec_bytes().subrange(k + 1, s.spec_bytes().len() as int))),
        match r {
            Ok((id, addr)) => exists|k: int|
                #![all_triggers]
                spec_only_eq_at(s.spec_bytes(), k) && spec_all_digits(
                    s.spec_bytes().subrange(0, k),
                ) && id as int == spec_digits_value(s.spec_bytes().subrange(0, k)) && encode_utf8(
                    addr@,
                ) == s.spec_bytes().subrange(k + 1, s.spec_bytes().len() as int),
            Err(_) => true,
        },
{
    let bs = s.as_bytes();
    let mut k: usize = 0;
    while k < bs.len() && bs[k] != 61
        invariant
            k <= bs@.len(),
            bs@ == s.spec_bytes(),
            forall|j: int| 0 <= j < k ==> bs@[j] != 61,
        decreases bs@.len() - k,
    {
        k += 1;
    }
    if k == bs.len() {
        proof {
            assert forall|kk: int| !spec_only_eq_at(bs@, kk) by {}
        }
        return Err(());
    }
    // the argument must hold no second separator
    let mut j2: usize = k + 1;
    while j2 < bs.len() && bs[j2] != 61
        invariant
            k + 1 <= j2 <= bs@.len(),
            k < bs@.len(),
            bs@ == s.spec_bytes(),
            bs@[k as int] == 61,
            forall|j: int| k < j < j2 ==> bs@[j] != 61,
        decreases bs@.len() - j2,
    {
        j2 += 1;
    }
    if j2 < bs.len() {
        proof {
            assert(bs@[j2 as int] == 61);
            assert forall|kk: int| !spec_only_eq_at(bs@, kk) by {
                if spec_only_eq_at(bs@, kk) {
                    if kk == k as int {
                        assert(bs@[j2 as int] != 61);
                    } else {
                        assert(bs@[k as int] != 61);
                    }
                }
            }
        }
        return Err(());
    }
    proof {
        assert(spec_only_eq_at(bs@, k as int));
        assert forall|kk: int| spec_only_eq_at(bs@, kk) implies kk == k as int by {
            if kk != k as int {
                assert(bs@[k as int] != 61);
            }
        }
    }
    let mut id_bytes: Vec<u8> = Vec::new();
    let mut i: usize = 0;
    while i < k
        invariant
            i <= k,
            k < bs@.len(),
            bs@ == s.spec_bytes(),
            id_bytes@ == bs@.subrange(0, i as int),
        decreases k - i,
    {
        id_bytes.push(bs[i]);
        proof {
            assert(id_bytes@ =~= bs@.subrange(0, i + 1));
        }
        i += 1;
    }
    let id = match parse_u64_digits(id_bytes.as_slice()) {
        Some(v) => v,
        None => {
            return Err(());
        },
    };
    let mut addr_bytes: Vec<u8> = Vec::new();
    let mut j: usize = k + 1;
    while j < bs.len()
        invariant
            k + 1 <= j <= bs@.len(),
            k < bs@.len(),
            bs@ == s.spec_bytes(),
            addr_bytes@ == bs@.subrange(k + 1, j as int),
        decreases bs@.len() - j,
    {
        addr_bytes.push(bs[j]);
        proof {
            assert(addr_bytes@ =~= bs@.subrange(k + 1, j + 1));
        }
        j += 1;
    }
    let addr = match crate::text::string_from_bytes(addr_bytes) {
        Some(a) => a,
        None => {
            return Err(());
        },
    };
    Ok((id, addr))
}

/// Whether a node id is in a list.
pub fn contains_node(ids: &Vec<u64>, id: u64) -> (r: bool)
    ensures
        r == ids@.contains(id),
{
    let mut i: usize = 0;
    while i < ids.len()
        invariant
            i <= ids@.len(),
            forall|j: int| 0 <= j < i ==> ids@[j] != id,
        decreases ids@.len() - i,
    {
        if ids[i] == id {
            return true;
        }
        i += 1;
    }
    false
}

/// Plans a promotion: learners become voters by extending the voter set.
/// Rejected with the offending id when one of them already is a voter.
pub fn plan_promote(existing: &Vec<u64>, to_promote: &Vec<u64>) -> (r: Result<Vec<u64>, u64>)
    ensures
        match r {
            Ok(ids) => ids@ == existing@ + to_promote@ && (forall|j: int|
                0 <= j < to_promote@.len() ==> !existing@.contains(#[trigger] to_promote@[j])),
            Err(id) => to_promote@.contains(id) && existing@.contains(id),
        },
{
    let mut i: usize = 0;
    while i < to_promote.len()
        invariant
            i <= to_promote@.len(),
            forall|j: int| 0 <= j < i ==> !existing@.contains(#[trigger] to_promote@[j]),
        decreases to_promote@.len() - i,
    {
        if contains_node(existing, to_promote[i]) {
            return Err(to_promote[i]);
        }
        i += 1;
    }
    let mut ids: Vec<u64> = Vec::new();
    let mut i: usize = 0;
    while i < existing.len()
        invariant
            i <= existing@.len(),
            ids@ == existing@.subrange(0, i as int),
        decreases existing@.len() - i,
    {
        ids.push(existing[i]);
        proof {
            assert(ids@ =~= existing@.subrange(0, i + 1));
        }
        i += 1;
    }
    let mut j: usize = 0;
    while j < to_promote.len()
        invariant
            j <= to_promote@.len(),
            ids@ == existing@.subrange(0, existing@.len() as int) + to_promote@.subrange(
                0,
                j as int,
            ),
            forall|g: int| 0 <= g < to_promote@.len() ==> !existing@.contains(
                #[trigger] to_promote@[g],
            ),
        decreases to_promote@.len() - j,
    {
        ids.push(to_promote[j]);
        proof {
            assert(ids@ =~= existing@.subrange(0, existing@.len() as int) + to_promote@.subrange(
                0,
                j + 1,
            ));
        }
        j += 1;
    }
    proof {
        assert(existing@.subrange(0, existing@.len() as int) =~= existing@);
        assert(to_promote@.subrange(0, to_promote@.len() as int) =~= to_promote@);
        assert(ids@ =~= existing@ + to_promote@);
    }
    Ok(ids)
}

/// Plans a removal: the node leaves the voter set; absent ids change
/// nothing and are reported as such.
pub fn plan_remove(existing: &Vec<u64>, node_id: u64) -> (r: Option<Vec<u64>>)
    ensures
        match r {
            Some(ids) => existing@.contains(node_id) && ids@ == existing@.filter(
                |x: u64| x != node_id,
            ),
            None => !existing@.contains(node_id),
        },
{
    if !contains_node(existing, node_id) {
        return None;
    }
    let ghost p = |x: u64| x != node_id;
    let mut ids: Vec<u64> = Vec::new();
    let mut i: usize = 0;
    while i < existing.len()
        invariant
            i <= existing@.len(),
            ids@ == existing@.subrange(0, i as int).filter(p),
            p == (|x: u64| x != node_id),
        decreases existing@.len() - i,
    {
        proof {
            assert(existing@.subrange(0, i + 1) =~= existing@.subrange(0, i as int).push(
                existing@[i as int],
            ));
            crate::seqs::lemma_filter_push(existing@.subrange(0, i as int), p, existing@[i as int]);
        }
        if existing[i] != node_id {
            ids.push(existing[i]);
        }
        i += 1;
    }
    proof {
        assert(existing@.subrange(0, existing@.len() as int) =~= existing@);
    }
    Some(ids)
}

/// The admin tool's endpoint URL for one cluster operation.
pub fn build_url(server: &str, path: &str) -> (r: String)
    ensures
        r@ == "http://"@ + server@ + "/api/cluster"@ + path@,
{
    let mut s = "http://".to_owned();
    s.append(server);
    s.append("/api/cluster");
    s.append(path);
    s
}

/// What a follower forwards to the leader: the original request, unchanged.
pub enum ForwardRequest {
    WriteRequest,
    AddLearner,
    MembershipRequest,
}

impl ForwardRequest {
    /// The leader endpoint the forwarded request is posted to.
    pub fn to_forward_url(&self, leader_addr: &str) -> (r: String)
        ensures
            r@ == "http://"@ + leader_addr@ + (match self {
                ForwardRequest::WriteRequest => "/api/cluster/write"@,
                ForwardRequest::AddLearner => "/api/cluster/add-learner"@,
                ForwardRequest::MembershipRequest => "/api/cluster/change-membership"@,
            }),
    {
        let mut s = "http://".to_owned();
        s.append(leader_addr);
        match self {
            ForwardRequest::WriteRequest => s.append("/api/cluster/write"),
            ForwardRequest::AddLearner => s.append("/api/cluster/add-learner"),
            ForwardRequest::MembershipRequest => s.append("/api/cluster/change-membership"),
        }
        s
    }
}

/// How a node handles a write: apply it (the leader), forward it to the
/// known leader, or reject it while an election is running.
pub enum WriteRouting {
    ApplyHere,
    ForwardTo(String),
    NoLeader,
}

/// Routes a write: the leader applies, a follower with a known leader
/// forwards the unchanged payload, and without a leader the write is
/// rejected.
pub fn route_write(is_leader: bool, leader_addr: Option<&String>) -> (r: WriteRouting)
    ensures
        is_leader ==> r is ApplyHere,
        !is_leader ==> match leader_addr {
            Some(a) => match r {
                WriteRouting::ForwardTo(f) => f@ == a@,
                _ => false,
            },
            None => r is NoLeader,
        },
{
    if is_leader {
        WriteRouting::ApplyHere
    } else {
        match leader_addr {
            Some(a) => WriteRouting::ForwardTo(a.clone()),
            None => WriteRouting::NoLeader,
        }
    }
}

/// Leader forwarding: a write posted to a follower and forwarded carries the unchanged
/// command, so its observable effect on the replicated state — and hence the
/// response computed from it — is exactly that of posting it to the leader:
/// the effect is a function of the applied state and the command alone, not
/// of the node that received the request.
pub proof fn lemma_leader_forwarding(
    s: StateModel,
    c: CommandModel,
    forwarded: CommandModel,
    now: int,
)
    requires
        forwarded == c,
    ensures
        spec_apply(s, forwarded, now) == spec_apply(s, c, now),
{
}


/// How a node runs: alone, or as a member of a cluster.
#[derive(Clone, Copy, Debug, PartialEq, Eq, Structural)]
pub enum Mode {
    Standalone,
    Cluster,
}

/// A node's startup parameters.
pub struct Args {
    pub address: String,
    pub port: u16,
    pub data_dir: String,
    pub node_id: u64,
    pub mode: Mode,
    pub enable_cache_config: bool,
}

impl Args {
    /// The address peers reach this node under.
    pub fn bind_addr(&self) -> (r: String)
        ensures
            r@ == crate::text::spec_endpoint_key(self.address@, self.port as int),
    {
        crate::text::endpoint_key(self.address.as_str(), self.port)
    }
}

} // verus!
