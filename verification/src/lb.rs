//! Client-side load balancing: weight extraction from instance metadata, the
//! four selection strategies, and the rewrite of `lb://service/...` URLs to
//! a chosen instance's endpoint.

use vstd::prelude::*;
use vstd::string::StringExecFns;
use vstd::string::StringSliceAdditionalSpecFns;
use vstd::utf8::encode_utf8;

use crate::text::str_eq;
use crate::value::{deep_copy, value_model, ConfigValue, ValueModel};

verus! {

/// A service instance as the registry hands it to clients.
pub struct Instance {
    pub id: String,
    pub service_id: String,
    pub ip: String,
    pub port: u16,
    pub meta: Vec<(String, ConfigValue)>,
}

/// Mathematical model of a client-side instance.
#[verifier::ext_equal]
pub ghost struct InstanceView {
    pub id: Seq<char>,
    pub service_id: Seq<char>,
    pub ip: Seq<char>,
    pub port: int,
    pub meta: Seq<(Seq<char>, ValueModel)>,
}

/// The view of client-side instance metadata.
pub open spec fn client_meta_view(meta: Seq<(String, ConfigValue)>) -> Seq<
    (Seq<char>, ValueModel),
> {
    meta.map_values(|p: (String, ConfigValue)| (p.0@, value_model(p.1)))
}

impl View for Instance {
    type V = InstanceView;

    open spec fn view(&self) -> InstanceView {
        InstanceView {
            id: self.id@,
            service_id: self.service_id@,
            ip: self.ip@,
            port: self.port as int,
            meta: client_meta_view(self.meta@),
        }
    }
}

/// The first metadata value under a key.
pub open spec fn spec_meta_lookup(meta: Seq<(Seq<char>, ValueModel)>, k: Seq<char>) -> Option<
    ValueModel,
>
    decreases meta.len(),
{
    if meta.len() == 0 {
        None
    } else if meta[0].0 == k {
        Some(meta[0].1)
    } else {
        spec_meta_lookup(meta.drop_first(), k)
    }
}

/// An instance's weight: the integer under the `weight` metadata key, with
/// everything below one, missing or non-numeric counting as one.
pub open spec fn spec_weight(meta: Seq<(Seq<char>, ValueModel)>) -> int {
    match spec_meta_lookup(meta, "weight"@) {
        Some(ValueModel::Int(i)) => if i >= 1 {
            i
        } else {
            1
        },
        _ => 1,
    }
}

impl Instance {
    /// A field-for-field copy.
    pub fn duplicate(&self) -> (r: Instance)
        ensures
            r@ == self@,
    {
        let mut meta: Vec<(String, ConfigValue)> = Vec::new();
        let mut i: usize = 0;
        while i < self.meta.len()
            invariant
                i <= self.meta@.len(),
                meta@.len() == i,
                forall|j: int|
                    0 <= j < i ==> (#[trigger] meta@[j]).0@ == self.meta@[j].0@ && value_model(
                        meta@[j].1,
                    ) == value_model(self.meta@[j].1),
            decreases self.meta@.len() - i,
        {
            let c = deep_copy(&self.meta[i].1);
            meta.push((self.meta[i].0.clone(), c));
            i += 1;
        }
        let r = Instance {
            id: self.id.clone(),
            service_id: self.service_id.clone(),
            ip: self.ip.clone(),
            port: self.port,
            meta,
        };
        proof {
            assert(client_meta_view(r.meta@) =~= client_meta_view(self.meta@));
            assert(r@ =~= self@);
        }
        r
    }

    /// The instance's weight for weighted selection, at least one.
    pub fn get_weight(&self) -> (r: u64)
        ensures
            r as int == spec_weight(self@.meta),
            r >= 1,
    {
        let ghost mv = self@.meta;
        proof {
            assert(mv.skip(0) =~= mv);
        }
        let mut i: usize = 0;
        while i < self.meta.len()
            invariant
                i <= self.meta@.len(),
                mv == self@.meta,
                spec_meta_lookup(mv, "weight"@) == spec_meta_lookup(mv.skip(i as int), "weight"@),
            decreases self.meta@.len() - i,
        {
            proof {
                assert(mv.skip(i as int).drop_first() =~= mv.skip(i + 1));
                assert(mv.skip(i as int)[0] == mv[i as int]);
            }
            if str_eq(self.meta[i].0.as_str(), "weight") {
                match &self.meta[i].1 {
                    ConfigValue::Int(w) => {
                        proof {
                            assert(mv[i as int].1 == ValueModel::Int(*w as int));
                        }
                        if *w >= 1 {
                            return *w as u64;
                        } else {
                            return 1;
                        }
                    },
                    _ => {
                        proof {
                            crate::value::lemma_value_model_variant(self.meta@[i as int].1);
                        }
                        return 1;
                    },
                }
            }
            i += 1;
        }
        proof {
            assert(mv.skip(mv.len() as int) =~= Seq::<(Seq<char>, ValueModel)>::empty());
        }
        1
    }
}

/// Why no instance could be chosen.
#[derive(Debug)]
pub enum LoadBalanceError {
    GetInstancesError(String),
    NoAvailableInstance(String),
}

/// Relies on fastrand::usize: a uniform draw below the bound.
#[verifier::external_body]
fn fastrand_below(n: usize) -> (r: usize)
    requires
        n > 0,
    ensures
        r < n,
{
    fastrand::usize(0..n)
}

/// Relies on fastrand::u128: a uniform draw below the bound.
#[verifier::external_body]
fn fastrand_below_u128(n: u128) -> (r: u128)
    requires
        n > 0,
    ensures
        r < n,
{
    fastrand::u128(0..n)
}

/// Picks one of the instances uniformly at random.
pub struct RandomLoadBalance;

impl RandomLoadBalance {
    /// An empty list is an error; a single instance is returned directly;
    /// otherwise one of the instances is drawn at random.
    pub fn get_instance(&self, service_id: &str, instances: &Vec<Instance>) -> (r: Result<
        Instance,
        LoadBalanceError,
    >)
        ensures
            match r {
                Ok(inst) => instances@.len() > 0 && (exists|i: int|
                    0 <= i < instances@.len() && inst@ == (#[trigger] instances@[i])@),
                Err(e) => instances@.len() == 0 && (match e {
                    LoadBalanceError::NoAvailableInstance(s) => s@ == service_id@,
                    _ => false,
                }),
            },
    {
        if instances.len() == 0 {
            return Err(LoadBalanceError::NoAvailableInstance(service_id.to_owned()));
        }
        if instances.len() == 1 {
            return Ok(instances[0].duplicate());
        }
        let i = fastrand_below(instances.len());
        Ok(instances[i].duplicate())
    }
}

/// The sum of the instances' weights.
pub open spec fn spec_total_weight(ms: Seq<InstanceView>) -> int
    decreases ms.len(),
{
    if ms.len() == 0 {
        0
    } else {
        spec_total_weight(ms.drop_last()) + spec_weight(ms.last().meta)
    }
}

/// The instance a weighted draw lands on: weights partition `[0, total)`
/// into consecutive runs, one per instance, in order.
pub open spec fn spec_weighted_pick(ms: Seq<InstanceView>, target: int) -> InstanceView
    decreases ms.len(),
{
    if ms.len() == 0 {
        arbitrary()
    } else if target < spec_weight(ms[0].meta) {
        ms[0]
    } else {
        spec_weighted_pick(ms.drop_first(), target - spec_weight(ms[0].meta))
    }
}

/// The views of a list of instances.
pub open spec fn instances_view(s: Seq<Instance>) -> Seq<InstanceView> {
    s.map_values(|i: Instance| i@)
}

/// The prefix sums relation: the total weight grows by each dropped head.
proof fn lemma_total_weight_split(ms: Seq<InstanceView>)
    requires
        ms.len() > 0,
    ensures
        spec_total_weight(ms) == spec_weight(ms[0].meta) + spec_total_weight(ms.drop_first()),
    decreases ms.len(),
{
    if ms.len() == 1 {
        assert(ms.drop_last() =~= Seq::<InstanceView>::empty());
        assert(ms.drop_first() =~= Seq::<InstanceView>::empty());
    } else {
        lemma_total_weight_split(ms.drop_last());
        assert(ms.drop_last()[0] == ms[0]);
        assert(ms.drop_last().drop_first() =~= ms.drop_first().drop_last());
        assert(ms.drop_first().last() == ms.last());
    }
}

/// Every weight is at least one, so the total covers the list.
proof fn lemma_total_weight_positive(ms: Seq<InstanceView>)
    ensures
        spec_total_weight(ms) >= ms.len(),
    decreases ms.len(),
{
    if ms.len() > 0 {
        lemma_total_weight_positive(ms.drop_last());
    }
}

/// Computes the total weight.
fn total_weight(instances: &Vec<Instance>) -> (r: u128)
    ensures
        r as int == spec_total_weight(instances_view(instances@)),
{
    let mut total: u128 = 0;
    let mut i: usize = 0;
    while i < instances.len()
        invariant
            i <= instances@.len(),
            total as int == spec_total_weight(instances_view(instances@).subrange(0, i as int)),
            total as int <= i as int * (u64::MAX as int),
        decreases instances@.len() - i,
    {
        let w = instances[i].get_weight();
        proof {
            assert(instances_view(instances@).subrange(0, i + 1).drop_last()
                =~= instances_view(instances@).subrange(0, i as int));
            assert(instances_view(instances@).subrange(0, i + 1).last()
                == instances_view(instances@)[i as int]);
            assert((i as int + 1) * (u64::MAX as int) == i as int * (u64::MAX as int) + (
            u64::MAX as int)) by (nonlinear_arith);
            assert((i as int + 1) * (u64::MAX as int) <= (instances@.len() as int) * (
            u64::MAX as int)) by (nonlinear_arith)
                requires
                    i as int + 1 <= instances@.len() as int,
            ;
            assert((instances@.len() as int) * (u64::MAX as int) <= (u64::MAX as int) * (
            u64::MAX as int)) by (nonlinear_arith)
                requires
                    instances@.len() as int <= u64::MAX as int,
            ;
            assert((u64::MAX as int) * (u64::MAX as int) < u128::MAX as int) by (nonlinear_arith);
        }
        total = total + w as u128;
        i += 1;
    }
    proof {
        assert(instances_view(instances@).subrange(0, instances@.len() as int) =~= instances_view(
            instances@,
        ));
    }
    total
}

/// Walks the weight runs to the instance a draw landed on.
fn pick_by_weight(instances: &Vec<Instance>, target: u128) -> (r: Instance)
    requires
        instances@.len() > 0,
        target < spec_total_weight(instances_view(instances@)),
    ensures
        r@ == spec_weighted_pick(instances_view(instances@), target as int),
{
    let ghost vs = instances_view(instances@);
    proof {
        assert(vs.skip(0) =~= vs);
    }
    let n = instances.len();
    let mut rest: u128 = target;
    let mut i: usize = 0;
    loop
        invariant
            n == instances@.len(),
            i < n,
            vs == instances_view(instances@),
            (rest as int) < spec_total_weight(vs.skip(i as int)),
            spec_weighted_pick(vs, target as int) == spec_weighted_pick(
                vs.skip(i as int),
                rest as int,
            ),
        decreases instances@.len() - i,
    {
        let w = instances[i].get_weight();
        proof {
            assert(vs.skip(i as int)[0] == vs[i as int]);
            assert(vs.skip(i as int).drop_first() =~= vs.skip(i + 1));
            lemma_total_weight_split(vs.skip(i as int));
        }
        if rest < w as u128 {
            return instances[i].duplicate();
        }
        proof {
            lemma_total_weight_positive(vs.skip(i + 1));
            assert(i + 1 < instances@.len()) by {
                if i + 1 == instances@.len() {
                    assert(vs.skip(i + 1) =~= Seq::<InstanceView>::empty());
                }
            }
        }
        rest = rest - w as u128;
        i += 1;
    }
}

/// Picks among the instances with probability proportional to their weights.
pub struct WeightRandomLoadBalance;

impl WeightRandomLoadBalance {
    /// An empty strategy value.
    pub fn new() -> (r: WeightRandomLoadBalance) {
        WeightRandomLoadBalance
    }

    /// An empty list is an error; otherwise a weighted draw picks the
    /// instance whose run of `[0, total weight)` the draw lands in.
    pub fn get_instance(&self, service_id: &str, instances: &Vec<Instance>) -> (r: Result<
        Instance,
        LoadBalanceError,
    >)
        ensures
            match r {
                Ok(inst) => instances@.len() > 0 && (exists|t: int|
                    0 <= t < spec_total_weight(instances_view(instances@)) && inst@
                        == spec_weighted_pick(instances_view(instances@), t)),
                Err(e) => instances@.len() == 0 && (match e {
                    LoadBalanceError::NoAvailableInstance(s) => s@ == service_id@,
                    _ => false,
                }),
            },
    {
        if instances.len() == 0 {
            return Err(LoadBalanceError::NoAvailableInstance(service_id.to_owned()));
        }
        let total = total_weight(instances);
        proof {
            lemma_total_weight_positive(instances_view(instances@));
        }
        let t = fastrand_below_u128(total);
        let inst = pick_by_weight(instances, t);
        Ok(inst)
    }
}

/// Walks the instances in turn, one per call, per service.
pub struct RoundRobinLoadBalance {
    pub index: Vec<(String, usize)>,
}

/// The stored counter of a service, zero when absent.
pub open spec fn spec_counter(idx: Seq<(String, usize)>, sid: Seq<char>) -> int
    decreases idx.len(),
{
    if idx.len() == 0 {
        0
    } else if idx[0].0@ == sid {
        idx[0].1 as int
    } else {
        spec_counter(idx.drop_first(), sid)
    }
}

/// The stored counter of a service.
fn counter_of(index: &Vec<(String, usize)>, service_id: &str) -> (r: usize)
    ensures
        r as int == spec_counter(index@, service_id@),
{
    let ghost cv = index@;
    proof {
        assert(cv.skip(0) =~= cv);
    }
    let mut i: usize = 0;
    while i < index.len()
        invariant
            i <= index@.len(),
            cv == index@,
            spec_counter(cv, service_id@) == spec_counter(cv.skip(i as int), service_id@),
        decreases index@.len() - i,
    {
        proof {
            assert(cv.skip(i as int).drop_first() =~= cv.skip(i + 1));
            assert(cv.skip(i as int)[0] == cv[i as int]);
        }
        if str_eq(index[i].0.as_str(), service_id) {
            return index[i].1;
        }
        i += 1;
    }
    proof {
        assert(cv.skip(cv.len() as int) =~= Seq::<(String, usize)>::empty());
    }
    0
}

/// Stores a service's counter.
fn store_counter(index: &mut Vec<(String, usize)>, service_id: &str, value: usize)
    ensures
        spec_counter(final (index)@, service_id@) == value as int,
{
    let mut found = false;
    let mut i: usize = 0;
    while i < index.len()
        invariant
            i <= index@.len(),
            old(index)@ == index@,
            found == exists|j: int| 0 <= j < i && (#[trigger] index@[j]).0@ == service_id@,
        decreases index@.len() - i,
    {
        if str_eq(index[i].0.as_str(), service_id) {
            found = true;
        }
        i += 1;
    }
    if found {
        let mut kept: Vec<(String, usize)> = Vec::new();
        let mut j: usize = 0;
        while j < index.len()
            invariant
                j <= index@.len(),
                old(index)@ == index@,
                kept@.len() == j,
                forall|g: int|
                    0 <= g < j ==> (#[trigger] kept@[g]).0@ == index@[g].0@ && kept@[g].1 == (
                    if index@[g].0@ == service_id@ {
                        value
                    } else {
                        index@[g].1
                    }),
            decreases index@.len() - j,
        {
            if str_eq(index[j].0.as_str(), service_id) {
                kept.push((index[j].0.clone(), value));
            } else {
                kept.push((index[j].0.clone(), index[j].1));
            }
            j += 1;
        }
        *index = kept;
        proof {
            lemma_counter_pointwise(old(index)@, index@, service_id@, value);
        }
    } else {
        index.push((service_id.to_owned(), value));
        proof {
            assert(index@ =~= old(index)@.push(index@[index@.len() - 1]));
            lemma_counter_appended(old(index)@, index@[index@.len() - 1], service_id@);
        }
    }
}

impl RoundRobinLoadBalance {
    /// An empty strategy state.
    pub fn new() -> (r: RoundRobinLoadBalance)
        ensures
            r.index@ == Seq::<(String, usize)>::empty(),
    {
        let r = RoundRobinLoadBalance { index: Vec::new() };
        proof {
            assert(r.index@ =~= Seq::<(String, usize)>::empty());
        }
        r
    }

    /// An empty list is an error; a single instance is returned without
    /// moving the counter; otherwise the counter advances by one modulo the
    /// list length and that instance is returned.
    pub fn get_instance(&mut self, service_id: &str, instances: &Vec<Instance>) -> (r: Result<
        Instance,
        LoadBalanceError,
    >)
        ensures
            match r {
                Ok(inst) => instances@.len() > 0 && (if instances@.len() == 1 {
                    inst@ == instances@[0]@ && *final (self) == *old(self)
                } else {
                    {
                        let next = (spec_counter(old(self).index@, service_id@) + 1) % (
                        instances@.len() as int);
                        inst@ == instances@[next]@ && spec_counter(
                            final (self).index@,
                            service_id@,
                        ) == next
                    }
                }),
                Err(e) => instances@.len() == 0 && *final (self) == *old(self) && (match e {
                    LoadBalanceError::NoAvailableInstance(s) => s@ == service_id@,
                    _ => false,
                }),
            },
    {
        if instances.len() == 0 {
            return Err(LoadBalanceError::NoAvailableInstance(service_id.to_owned()));
        }
        if instances.len() == 1 {
            return Ok(instances[0].duplicate());
        }
        let cur = counter_of(&self.index, service_id);
        let n = instances.len();
        let cur_mod = cur % n;
        let next = if cur_mod + 1 == n {
            0
        } else {
            cur_mod + 1
        };
        proof {
            vstd::arithmetic::div_mod::lemma_add_mod_noop(cur as int, 1, n as int);
            vstd::arithmetic::div_mod::lemma_mod_twice(cur as int, n as int);
            vstd::arithmetic::div_mod::lemma_small_mod(1nat, n as nat);
            if cur_mod + 1 == n {
                vstd::arithmetic::div_mod::lemma_mod_self_0(n as int);
            } else {
                vstd::arithmetic::div_mod::lemma_small_mod((cur_mod + 1) as nat, n as nat);
            }
            assert(next as int == (spec_counter(old(self).index@, service_id@) + 1) % (
            instances@.len() as int));
        }
        store_counter(&mut self.index, service_id, next);
        Ok(instances[next].duplicate())
    }
}

/// A rewritten counter table reads back the stored value.
proof fn lemma_counter_pointwise(
    before: Seq<(String, usize)>,
    after: Seq<(String, usize)>,
    sid: Seq<char>,
    value: usize,
)
    requires
        before.len() == after.len(),
        forall|g: int|
            0 <= g < after.len() ==> (#[trigger] after[g]).0@ == before[g].0@ && after[g].1 == (
            if before[g].0@ == sid {
                value
            } else {
                before[g].1
            }),
        exists|j: int| 0 <= j < before.len() && (#[trigger] before[j]).0@ == sid,
    ensures
        spec_counter(after, sid) == value as int,
    decreases before.len(),
{
    if before.len() > 0 {
        if before[0].0@ == sid {
        } else {
            assert forall|g: int|
                0 <= g < after.drop_first().len() implies (#[trigger] after.drop_first()[g]).0@
                == before.drop_first()[g].0@ && after.drop_first()[g].1 == (
            if before.drop_first()[g].0@ == sid {
                value
            } else {
                before.drop_first()[g].1
            }) by {
                assert(after.drop_first()[g] == after[g + 1]);
                assert(before.drop_first()[g] == before[g + 1]);
            }
            let j = choose|j: int| 0 <= j < before.len() && (#[trigger] before[j]).0@ == sid;
            assert(before.drop_first()[j - 1].0@ == sid);
            lemma_counter_pointwise(before.drop_first(), after.drop_first(), sid, value);
        }
    }
}

/// A counter appended for a previously unknown service reads back.
proof fn lemma_counter_appended(before: Seq<(String, usize)>, p: (String, usize), sid: Seq<char>)
    requires
        forall|j: int| 0 <= j < before.len() ==> (#[trigger] before[j]).0@ != sid,
        p.0@ == sid,
    ensures
        spec_counter(before.push(p), sid) == p.1 as int,
    decreases before.len(),
{
    if before.len() == 0 {
        assert(before.push(p)[0] == p);
    } else {
        assert(before.push(p)[0] == before[0]);
        assert(before.push(p).drop_first() =~= before.drop_first().push(p));
        assert forall|j: int|
            0 <= j < before.drop_first().len() implies (#[trigger] before.drop_first()[j]).0@
            != sid by {
            assert(before.drop_first()[j] == before[j + 1]);
        }
        lemma_counter_appended(before.drop_first(), p, sid);
    }
}


/// Walks the instances by weight: each instance is returned as many times in
/// a cycle as its weight.
pub struct WeightRoundRobinLoadBalance {
    pub current_weight: Vec<(String, usize)>,
}

impl WeightRoundRobinLoadBalance {
    /// An empty strategy state.
    pub fn new() -> (r: WeightRoundRobinLoadBalance)
        ensures
            r.current_weight@ == Seq::<(String, usize)>::empty(),
    {
        let r = WeightRoundRobinLoadBalance { current_weight: Vec::new() };
        proof {
            assert(r.current_weight@ =~= Seq::<(String, usize)>::empty());
        }
        r
    }

    /// An empty list is an error; a single instance is returned without
    /// moving the counter; otherwise the counter picks the position in the
    /// weight cycle and advances by one (wrapping at the counter type).
    pub fn get_instance(&mut self, service_id: &str, instances: &Vec<Instance>) -> (r: Result<
        Instance,
        LoadBalanceError,
    >)
        ensures
            match r {
                Ok(inst) => instances@.len() > 0 && (if instances@.len() == 1 {
                    inst@ == instances@[0]@ && *final (self) == *old(self)
                } else {
                    {
                        let cur = spec_counter(old(self).current_weight@, service_id@);
                        inst@ == spec_weighted_pick(
                            instances_view(instances@),
                            cur % spec_total_weight(instances_view(instances@)),
                        ) && spec_counter(final (self).current_weight@, service_id@) == (
                        if cur == usize::MAX {
                            0
                        } else {
                            cur + 1
                        })
                    }
                }),
                Err(e) => instances@.len() == 0 && *final (self) == *old(self) && (match e {
                    LoadBalanceError::NoAvailableInstance(s) => s@ == service_id@,
                    _ => false,
                }),
            },
    {
        if instances.len() == 0 {
            return Err(LoadBalanceError::NoAvailableInstance(service_id.to_owned()));
        }
        if instances.len() == 1 {
            return Ok(instances[0].duplicate());
        }
        let total = total_weight(instances);
        proof {
            lemma_total_weight_positive(instances_view(instances@));
        }
        let cur = counter_of(&self.current_weight, service_id);
        let pos = (cur as u128) % total;
        let inst = pick_by_weight(instances, pos);
        let nxt = if cur == usize::MAX {
            0
        } else {
            cur + 1
        };
        store_counter(&mut self.current_weight, service_id, nxt);
        Ok(inst)
    }
}

/// The scheme separator bytes `://` at a position.
pub open spec fn spec_sep_at(bs: Seq<u8>, p: int) -> bool {
    0 <= p && p + 3 <= bs.len() && bs[p] == 58 && bs[p + 1] == 47 && bs[p + 2] == 47
}

/// The end of the host part: the first `/` at or after `from`, else the end.
pub open spec fn spec_host_end(bs: Seq<u8>, from: int) -> int
    decreases bs.len() - from,
{
    if from < 0 || from >= bs.len() {
        bs.len() as int
    } else if bs[from] == 47 {
        from
    } else {
        spec_host_end(bs, from + 1)
    }
}

/// The bytes of `http://`.
pub open spec fn spec_http_prefix() -> Seq<u8> {
    seq![104u8, 116u8, 116u8, 112u8, 58u8, 47u8, 47u8]
}

/// The decimal digit bytes of a nonnegative number.
pub open spec fn spec_dec_bytes(n: int) -> Seq<u8>
    decreases n,
{
    if n < 10 {
        seq![(48 + n) as u8]
    } else {
        spec_dec_bytes(n / 10) + seq![(48 + n % 10) as u8]
    }
}

/// Renders a number as decimal digit bytes.
fn dec_bytes(n: u64) -> (r: Vec<u8>)
    ensures
        r@ == spec_dec_bytes(n as int),
    decreases n,
{
    if n < 10 {
        let mut r: Vec<u8> = Vec::new();
        r.push(48 + (n as u8));
        proof {
            assert(r@ =~= spec_dec_bytes(n as int));
        }
        r
    } else {
        let mut r = dec_bytes(n / 10);
        r.push(48 + ((n % 10) as u8));
        proof {
            assert(r@ =~= spec_dec_bytes(n as int));
        }
        r
    }
}

/// Pushes a string's bytes onto a buffer.
pub fn push_str_bytes(out: &mut Vec<u8>, s: &str)
    ensures
        final (out)@ == old(out)@ + s.spec_bytes(),
{
    let bs = s.as_bytes();
    let mut i: usize = 0;
    while i < bs.len()
        invariant
            i <= bs@.len(),
            bs@ == s.spec_bytes(),
            out@ == old(out)@ + bs@.subrange(0, i as int),
        decreases bs@.len() - i,
    {
        out.push(bs[i]);
        proof {
            assert(old(out)@ + bs@.subrange(0, i as int + 1) =~= (old(out)@ + bs@.subrange(
                0,
                i as int,
            )).push(bs@[i as int]));
        }
        i += 1;
    }
    proof {
        assert(bs@.subrange(0, bs@.len() as int) =~= bs@);
    }
}

/// Rewrites a load-balancing URL `scheme://service/...` to the chosen
/// instance's endpoint `http://ip:port/...`. A URL without a scheme
/// separator is left to the caller unchanged.
#[verifier::rlimit(100)]
pub fn rewrite_lb_url(url: &str, ip: &str, port: u16) -> (r: Option<String>)
    ensures
        match r {
            Some(s) => exists|p: int|
                #[trigger] spec_sep_at(url.spec_bytes(), p) && (forall|q: int|
                    0 <= q < p ==> !spec_sep_at(url.spec_bytes(), q)) && encode_utf8(s@)
                    == spec_http_prefix() + encode_utf8(ip@) + seq![58u8] + spec_dec_bytes(
                    port as int,
                ) + url.spec_bytes().subrange(
                    spec_host_end(url.spec_bytes(), p + 3),
                    url.spec_bytes().len() as int,
                ),
            None => true,
        },
        (forall|q: int| !spec_sep_at(url.spec_bytes(), q)) ==> r is None,
        r is None ==> ((forall|q: int| !spec_sep_at(url.spec_bytes(), q)) || (exists|p: int|
            #![all_triggers]
            spec_sep_at(url.spec_bytes(), p) && (forall|q: int|
                0 <= q < p ==> !spec_sep_at(url.spec_bytes(), q)) && (forall|sc: Seq<char>|
                #[trigger] encode_utf8(sc) != spec_http_prefix() + encode_utf8(ip@) + seq![58u8]
                    + spec_dec_bytes(port as int) + url.spec_bytes().subrange(
                    spec_host_end(url.spec_bytes(), p + 3),
                    url.spec_bytes().len() as int,
                )))),
{
    let bs = url.as_bytes();
    let mut p: usize = 0;
    while bs.len() - p >= 3 && !(bs[p] == 58 && bs[p + 1] == 47 && bs[p + 2] == 47)
        invariant
            p <= bs@.len(),
            bs@ == url.spec_bytes(),
            forall|q: int| 0 <= q < p ==> !spec_sep_at(bs@, q),
        decreases bs@.len() - p,
    {
        p += 1;
    }
    if bs.len() - p < 3 {
        return None;
    }
    // find the end of the host part
    let mut he: usize = p + 3;
    while he < bs.len() && bs[he] != 47
        invariant
            p + 3 <= he <= bs@.len(),
            bs@ == url.spec_bytes(),
            spec_host_end(bs@, p + 3) == spec_host_end(bs@, he as int),
        decreases bs@.len() - he,
    {
        he += 1;
    }
    proof {
        assert(spec_host_end(bs@, he as int) == he as int);
    }
    let mut out: Vec<u8> = Vec::new();
    out.push(104);
    out.push(116);
    out.push(116);
    out.push(112);
    out.push(58);
    out.push(47);
    out.push(47);
    proof {
        assert(out@ =~= spec_http_prefix());
    }
    push_str_bytes(&mut out, ip);
    out.push(58);
    let mut digits = dec_bytes(port as u64);
    out.append(&mut digits);
    let mut j: usize = he;
    let ghost mid = out@;
    while j < bs.len()
        invariant
            he <= j <= bs@.len(),
            bs@ == url.spec_bytes(),
            out@ == mid + bs@.subrange(he as int, j as int),
        decreases bs@.len() - j,
    {
        out.push(bs[j]);
        proof {
            assert(mid + bs@.subrange(he as int, j + 1) =~= (mid + bs@.subrange(
                he as int,
                j as int,
            )).push(bs@[j as int]));
        }
        j += 1;
    }
    let ghost target = spec_http_prefix() + encode_utf8(ip@) + seq![58u8] + spec_dec_bytes(
        port as int,
    ) + bs@.subrange(spec_host_end(bs@, p + 3), bs@.len() as int);
    proof {
        assert(spec_sep_at(bs@, p as int));
        assert(out@ =~= target);
    }
    match crate::text::string_from_bytes(out) {
        Some(s) => {
            proof {
                assert(encode_utf8(s@) == target);
            }
            Some(s)
        },
        None => {
            proof {
                assert(forall|sc: Seq<char>| #[trigger] encode_utf8(sc) != target);
            }
            None
        },
    }
}

} // verus!
