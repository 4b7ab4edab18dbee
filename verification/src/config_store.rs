//! Versioned configuration entries: current rows keyed by (namespace, id),
//! history rows whose id is the deterministic sum `base id + update time`,
//! MD5 deduplication on upsert, paging, and the change-watch match rule.

use vstd::prelude::*;
use vstd::string::StringExecFns;
use vstd::string::StringSliceAdditionalSpecFns;
use vstd::utf8::encode_utf8;

use crate::digest::{md5_hex, md5_hex_of};
use crate::namespace::{clone_opt_string, opt_str_view};
use crate::seqs::lemma_filter_push;
use crate::text::str_eq;

verus! {

/// One configuration row, current or historic. Times are milliseconds.
pub struct ConfigEntry {
    pub id_: i64,
    pub namespace_id: String,
    pub id: String,
    pub content: String,
    pub create_time: i64,
    pub update_time: i64,
    pub description: Option<String>,
    pub format: String,
    pub md5: String,
}

/// Mathematical model of a configuration row.
#[verifier::ext_equal]
pub ghost struct ConfigEntryModel {
    pub id_: int,
    pub namespace_id: Seq<char>,
    pub id: Seq<char>,
    pub content: Seq<char>,
    pub create_time: int,
    pub update_time: int,
    pub description: Option<Seq<char>>,
    pub format: Seq<char>,
    pub md5: Seq<char>,
}

impl View for ConfigEntry {
    type V = ConfigEntryModel;

    open spec fn view(&self) -> ConfigEntryModel {
        ConfigEntryModel {
            id_: self.id_ as int,
            namespace_id: self.namespace_id@,
            id: self.id@,
            content: self.content@,
            create_time: self.create_time as int,
            update_time: self.update_time as int,
            description: opt_str_view(self.description),
            format: self.format@,
            md5: self.md5@,
        }
    }
}

impl ConfigEntry {
    /// The MD5 hex of a content string, used to deduplicate upserts.
    pub fn gen_md5(content: &str) -> (r: String)
        ensures
            r@ == md5_hex_of(encode_utf8(content@)),
    {
        md5_hex(content)
    }

    /// A field-for-field copy.
    pub fn duplicate(&self) -> (r: ConfigEntry)
        ensures
            r@ == self@,
    {
        let r = ConfigEntry {
            id_: self.id_,
            namespace_id: self.namespace_id.clone(),
            id: self.id.clone(),
            content: self.content.clone(),
            create_time: self.create_time,
            update_time: self.update_time,
            description: clone_opt_string(&self.description),
            format: self.format.clone(),
            md5: self.md5.clone(),
        };
        proof {
            assert(r@ =~= self@);
        }
        r
    }
}

/// The bounds an applied entry must satisfy so that its history id, the sum
/// of its base id and update time, fits the row-id type.
pub open spec fn spec_entry_wf(e: ConfigEntryModel) -> bool {
    0 <= e.id_ && 0 <= e.update_time && e.id_ + e.update_time <= i64::MAX
}

/// The history row an applied entry produces: the entry itself under the
/// deterministic id `base id + update time`, identical on every replica.
pub open spec fn spec_history_row(e: ConfigEntryModel) -> ConfigEntryModel {
    ConfigEntryModel { id_: e.id_ + e.update_time, ..e }
}

/// Whether a current row with the key exists.
pub open spec fn spec_has_config(cs: Seq<ConfigEntryModel>, ns: Seq<char>, id: Seq<char>) -> bool {
    exists|j: int|
        0 <= j < cs.len() && (#[trigger] cs[j]).namespace_id == ns && cs[j].id == id
}

/// The first current row with the key.
pub open spec fn spec_lookup_config(
    cs: Seq<ConfigEntryModel>,
    ns: Seq<char>,
    id: Seq<char>,
) -> Option<ConfigEntryModel>
    decreases cs.len(),
{
    if cs.len() == 0 {
        None
    } else if cs[0].namespace_id == ns && cs[0].id == id {
        Some(cs[0])
    } else {
        spec_lookup_config(cs.drop_first(), ns, id)
    }
}

/// The current rows after an entry is applied: a row with the same key is
/// replaced in place, a new key lands at the front (newest first).
pub open spec fn spec_insert_config(cs: Seq<ConfigEntryModel>, e: ConfigEntryModel) -> Seq<
    ConfigEntryModel,
> {
    if spec_has_config(cs, e.namespace_id, e.id) {
        cs.map_values(
            |m: ConfigEntryModel|
                if m.namespace_id == e.namespace_id && m.id == e.id {
                    e
                } else {
                    m
                },
        )
    } else {
        seq![e] + cs
    }
}

/// Whether a history row with the id exists.
pub open spec fn spec_has_history(hs: Seq<ConfigEntryModel>, hid: int) -> bool {
    exists|j: int| 0 <= j < hs.len() && (#[trigger] hs[j]).id_ == hid
}

/// The history rows after an applied entry: the row under its deterministic
/// id is replaced if present (a replay), else added at the front.
pub open spec fn spec_append_history(hs: Seq<ConfigEntryModel>, h: ConfigEntryModel) -> Seq<
    ConfigEntryModel,
> {
    if spec_has_history(hs, h.id_) {
        hs.map_values(
            |m: ConfigEntryModel|
                if m.id_ == h.id_ {
                    h
                } else {
                    m
                },
        )
    } else {
        seq![h] + hs
    }
}

/// The current rows after a deletion.
pub open spec fn spec_delete_config(
    cs: Seq<ConfigEntryModel>,
    ns: Seq<char>,
    id: Seq<char>,
) -> Seq<ConfigEntryModel> {
    cs.filter(|m: ConfigEntryModel| !(m.namespace_id == ns && m.id == id))
}

/// The rows after every row of a namespace is removed.
pub open spec fn spec_delete_namespace_configs(cs: Seq<ConfigEntryModel>, ns: Seq<char>) -> Seq<
    ConfigEntryModel,
> {
    cs.filter(|m: ConfigEntryModel| m.namespace_id != ns)
}

/// The upsert decision: nothing to replicate, a fresh row, or an update that
/// keeps the row's base id and creation time.
pub enum UpsertPlan {
    Unchanged,
    Insert(ConfigEntry),
    Update(ConfigEntry),
}

/// Mathematical model of the upsert decision.
#[verifier::ext_equal]
pub ghost enum UpsertPlanModel {
    Unchanged,
    Insert(ConfigEntryModel),
    Update(ConfigEntryModel),
}

impl View for UpsertPlan {
    type V = UpsertPlanModel;

    open spec fn view(&self) -> UpsertPlanModel {
        match self {
            UpsertPlan::Unchanged => UpsertPlanModel::Unchanged,
            UpsertPlan::Insert(e) => UpsertPlanModel::Insert(e@),
            UpsertPlan::Update(e) => UpsertPlanModel::Update(e@),
        }
    }
}

/// The upsert rule (spec): unchanged content (equal MD5) is a no-op; a new
/// key becomes a fresh row with the next id; changed content becomes an
/// update that keeps the base id and creation time.
pub open spec fn spec_plan_upsert(
    existing: Option<ConfigEntryModel>,
    ns: Seq<char>,
    id: Seq<char>,
    content: Seq<char>,
    desc: Option<Seq<char>>,
    fmt: Seq<char>,
    now: int,
    next_id: int,
) -> UpsertPlanModel {
    let digest = md5_hex_of(encode_utf8(content));
    match existing {
        Some(old) => {
            if old.md5 == digest {
                UpsertPlanModel::Unchanged
            } else {
                UpsertPlanModel::Update(
                    ConfigEntryModel {
                        id_: old.id_,
                        namespace_id: ns,
                        id: id,
                        content: content,
                        create_time: old.create_time,
                        update_time: now,
                        description: desc,
                        format: fmt,
                        md5: digest,
                    },
                )
            }
        },
        None => UpsertPlanModel::Insert(
            ConfigEntryModel {
                id_: next_id,
                namespace_id: ns,
                id: id,
                content: content,
                create_time: now,
                update_time: now,
                description: desc,
                format: fmt,
                md5: digest,
            },
        ),
    }
}

/// Decides an upsert before replication: computes the content's MD5 and
/// returns what, if anything, must be replicated (the no-op rule for
/// unchanged content).
pub fn plan_upsert(
    existing: Option<&ConfigEntry>,
    namespace_id: &str,
    config_id: &str,
    content: &str,
    description: Option<String>,
    format: &str,
    now: i64,
    next_id: i64,
) -> (r: UpsertPlan)
    ensures
        r@ == spec_plan_upsert(
            match existing {
                Some(e) => Some(e@),
                None => None,
            },
            namespace_id@,
            config_id@,
            content@,
            opt_str_view(description),
            format@,
            now as int,
            next_id as int,
        ),
{
    let digest = ConfigEntry::gen_md5(content);
    match existing {
        Some(old) => {
            if str_eq(old.md5.as_str(), digest.as_str()) {
                UpsertPlan::Unchanged
            } else {
                let e = ConfigEntry {
                    id_: old.id_,
                    namespace_id: namespace_id.to_owned(),
                    id: config_id.to_owned(),
                    content: content.to_owned(),
                    create_time: old.create_time,
                    update_time: now,
                    description,
                    format: format.to_owned(),
                    md5: digest,
                };
                proof {
                    assert(e@ =~= spec_plan_upsert(
                        Some(old@),
                        namespace_id@,
                        config_id@,
                        content@,
                        opt_str_view(e.description),
                        format@,
                        now as int,
                        next_id as int,
                    )->Update_0);
                }
                UpsertPlan::Update(e)
            }
        },
        None => {
            let e = ConfigEntry {
                id_: next_id,
                namespace_id: namespace_id.to_owned(),
                id: config_id.to_owned(),
                content: content.to_owned(),
                create_time: now,
                update_time: now,
                description,
                format: format.to_owned(),
                md5: digest,
            };
            proof {
                assert(e@ =~= spec_plan_upsert(
                    None,
                    namespace_id@,
                    config_id@,
                    content@,
                    opt_str_view(e.description),
                    format@,
                    now as int,
                    next_id as int,
                )->Insert_0);
            }
            UpsertPlan::Insert(e)
        },
    }
}

/// The long-poll match rule: a change event answers a watch exactly when it
/// happened in the watched namespace, and then carries the changed config id.
pub fn watch_match(event_namespace: &str, event_config_id: &str, watched_namespace: &str) -> (r:
    Option<String>)
    ensures
        r is Some <==> event_namespace@ == watched_namespace@,
        match r {
            Some(s) => s@ == event_config_id@,
            None => true,
        },
{
    if str_eq(event_namespace, watched_namespace) {
        Some(event_config_id.to_owned())
    } else {
        None
    }
}


/// The view of a list of rows.
pub open spec fn configs_view(s: Seq<ConfigEntry>) -> Seq<ConfigEntryModel> {
    s.map_values(|e: ConfigEntry| e@)
}

/// A key that is nowhere in the rows looks up to nothing.
pub proof fn lemma_lookup_config_none(cs: Seq<ConfigEntryModel>, ns: Seq<char>, id: Seq<char>)
    requires
        !spec_has_config(cs, ns, id),
    ensures
        spec_lookup_config(cs, ns, id) is None,
    decreases cs.len(),
{
    if cs.len() > 0 {
        assert(!(cs[0].namespace_id == ns && cs[0].id == id));
        assert forall|j: int|
            0 <= j < cs.drop_first().len() implies !((#[trigger] cs.drop_first()[j]).namespace_id
            == ns && cs.drop_first()[j].id == id) by {
            assert(cs.drop_first()[j] == cs[j + 1]);
        }
        lemma_lookup_config_none(cs.drop_first(), ns, id);
    }
}

/// Replaces the row with the entry's key or puts the entry at the front.
fn upsert_row_by_key(v: &mut Vec<ConfigEntry>, e: ConfigEntry)
    ensures
        configs_view(final (v)@) == spec_insert_config(configs_view(old(v)@), e@),
{
    let mut found = false;
    let mut i: usize = 0;
    while i < v.len()
        invariant
            i <= v@.len(),
            old(v)@ == v@,
            found == exists|j: int|
                0 <= j < i && (#[trigger] configs_view(v@)[j]).namespace_id == e@.namespace_id
                    && configs_view(v@)[j].id == e@.id,
        decreases v@.len() - i,
    {
        if str_eq(v[i].namespace_id.as_str(), e.namespace_id.as_str()) && str_eq(
            v[i].id.as_str(),
            e.id.as_str(),
        ) {
            found = true;
            proof {
                assert(configs_view(v@)[i as int].namespace_id == e@.namespace_id);
            }
        }
        i += 1;
    }
    if found {
        let mut kept: Vec<ConfigEntry> = Vec::new();
        let mut j: usize = 0;
        while j < v.len()
            invariant
                j <= v@.len(),
                old(v)@ == v@,
                kept@.len() == j,
                forall|g: int|
                    0 <= g < j ==> (#[trigger] kept@[g])@ == if configs_view(v@)[g].namespace_id
                        == e@.namespace_id && configs_view(v@)[g].id == e@.id {
                        e@
                    } else {
                        configs_view(v@)[g]
                    },
            decreases v@.len() - j,
        {
            if str_eq(v[j].namespace_id.as_str(), e.namespace_id.as_str()) && str_eq(
                v[j].id.as_str(),
                e.id.as_str(),
            ) {
                let d = e.duplicate();
                kept.push(d);
            } else {
                let d = v[j].duplicate();
                kept.push(d);
            }
            j += 1;
        }
        *v = kept;
        proof {
            assert(configs_view(v@) =~= spec_insert_config(configs_view(old(v)@), e@));
        }
    } else {
        let ghost em = e@;
        let mut kept: Vec<ConfigEntry> = Vec::new();
        kept.push(e);
        let mut j: usize = 0;
        while j < v.len()
            invariant
                j <= v@.len(),
                old(v)@ == v@,
                kept@.len() == j + 1,
                forall|g: int| 0 <= g < j ==> (#[trigger] kept@[g + 1])@ == configs_view(v@)[g],
                kept@[0]@ == em,
            decreases v@.len() - j,
        {
            let d = v[j].duplicate();
            kept.push(d);
            j += 1;
        }
        *v = kept;
        proof {
            assert forall|g: int| 1 <= g < v@.len() implies (#[trigger] v@[g])@ == configs_view(
                old(v)@,
            )[g - 1] by {
                assert(v@[(g - 1) + 1]@ == configs_view(old(v)@)[g - 1]);
            }
            assert(configs_view(v@) =~= seq![em] + configs_view(old(v)@));
            assert(configs_view(v@) =~= spec_insert_config(configs_view(old(v)@), em));
        }
    }
}

/// Replaces the history row with the given id or puts it at the front.
fn upsert_row_by_id(v: &mut Vec<ConfigEntry>, h: ConfigEntry)
    ensures
        configs_view(final (v)@) == spec_append_history(configs_view(old(v)@), h@),
{
    let mut found = false;
    let mut i: usize = 0;
    while i < v.len()
        invariant
            i <= v@.len(),
            old(v)@ == v@,
            found == exists|j: int|
                0 <= j < i && (#[trigger] configs_view(v@)[j]).id_ == h@.id_,
        decreases v@.len() - i,
    {
        if v[i].id_ == h.id_ {
            found = true;
            proof {
                assert(configs_view(v@)[i as int].id_ == h@.id_);
            }
        }
        i += 1;
    }
    if found {
        let mut kept: Vec<ConfigEntry> = Vec::new();
        let mut j: usize = 0;
        while j < v.len()
            invariant
                j <= v@.len(),
                old(v)@ == v@,
                kept@.len() == j,
                forall|g: int|
                    0 <= g < j ==> (#[trigger] kept@[g])@ == if configs_view(v@)[g].id_ == h@.id_ {
                        h@
                    } else {
                        configs_view(v@)[g]
                    },
            decreases v@.len() - j,
        {
            if v[j].id_ == h.id_ {
                let d = h.duplicate();
                kept.push(d);
            } else {
                let d = v[j].duplicate();
                kept.push(d);
            }
            j += 1;
        }
        *v = kept;
        proof {
            assert(configs_view(v@) =~= spec_append_history(configs_view(old(v)@), h@));
        }
    } else {
        let ghost hm = h@;
        let mut kept: Vec<ConfigEntry> = Vec::new();
        kept.push(h);
        let mut j: usize = 0;
        while j < v.len()
            invariant
                j <= v@.len(),
                old(v)@ == v@,
                kept@.len() == j + 1,
                forall|g: int| 0 <= g < j ==> (#[trigger] kept@[g + 1])@ == configs_view(v@)[g],
                kept@[0]@ == hm,
            decreases v@.len() - j,
        {
            let d = v[j].duplicate();
            kept.push(d);
            j += 1;
        }
        *v = kept;
        proof {
            assert forall|g: int| 1 <= g < v@.len() implies (#[trigger] v@[g])@ == configs_view(
                old(v)@,
            )[g - 1] by {
                assert(v@[(g - 1) + 1]@ == configs_view(old(v)@)[g - 1]);
            }
            assert(configs_view(v@) =~= seq![hm] + configs_view(old(v)@));
            assert(configs_view(v@) =~= spec_append_history(configs_view(old(v)@), hm));
        }
    }
}

/// Keeps the rows a predicate accepts, dropping one config key.
fn retain_without_key(v: &mut Vec<ConfigEntry>, ns: &str, id: &str)
    ensures
        configs_view(final (v)@) == spec_delete_config(configs_view(old(v)@), ns@, id@),
{
    let ghost p = |m: ConfigEntryModel| !(m.namespace_id == ns@ && m.id == id@);
    let mut kept: Vec<ConfigEntry> = Vec::new();
    let mut i: usize = 0;
    while i < v.len()
        invariant
            i <= v@.len(),
            old(v)@ == v@,
            configs_view(kept@) == configs_view(v@.subrange(0, i as int)).filter(p),
            p == (|m: ConfigEntryModel| !(m.namespace_id == ns@ && m.id == id@)),
        decreases v@.len() - i,
    {
        proof {
            assert(v@.subrange(0, i + 1) =~= v@.subrange(0, i as int).push(v@[i as int]));
            assert(configs_view(v@.subrange(0, i as int).push(v@[i as int])) =~= configs_view(
                v@.subrange(0, i as int),
            ).push(v@[i as int]@));
            lemma_filter_push(configs_view(v@.subrange(0, i as int)), p, v@[i as int]@);
        }
        if !(str_eq(v[i].namespace_id.as_str(), ns) && str_eq(v[i].id.as_str(), id)) {
            let d = v[i].duplicate();
            kept.push(d);
            proof {
                assert(configs_view(kept@) =~= configs_view(v@.subrange(0, i + 1)).filter(p));
            }
        }
        i += 1;
    }
    proof {
        assert(v@.subrange(0, v@.len() as int) =~= v@);
    }
    *v = kept;
}

/// Keeps the rows outside one namespace.
fn retain_without_namespace(v: &mut Vec<ConfigEntry>, ns: &str)
    ensures
        configs_view(final (v)@) == spec_delete_namespace_configs(configs_view(old(v)@), ns@),
{
    let ghost p = |m: ConfigEntryModel| m.namespace_id != ns@;
    let mut kept: Vec<ConfigEntry> = Vec::new();
    let mut i: usize = 0;
    while i < v.len()
        invariant
            i <= v@.len(),
            old(v)@ == v@,
            configs_view(kept@) == configs_view(v@.subrange(0, i as int)).filter(p),
            p == (|m: ConfigEntryModel| m.namespace_id != ns@),
        decreases v@.len() - i,
    {
        proof {
            assert(v@.subrange(0, i + 1) =~= v@.subrange(0, i as int).push(v@[i as int]));
            assert(configs_view(v@.subrange(0, i as int).push(v@[i as int])) =~= configs_view(
                v@.subrange(0, i as int),
            ).push(v@[i as int]@));
            lemma_filter_push(configs_view(v@.subrange(0, i as int)), p, v@[i as int]@);
        }
        if !str_eq(v[i].namespace_id.as_str(), ns) {
            let d = v[i].duplicate();
            kept.push(d);
            proof {
                assert(configs_view(kept@) =~= configs_view(v@.subrange(0, i + 1)).filter(p));
            }
        }
        i += 1;
    }
    proof {
        assert(v@.subrange(0, v@.len() as int) =~= v@);
    }
    *v = kept;
}

/// Current and historic configuration rows.
pub struct ConfigStore {
    pub entries: Vec<ConfigEntry>,
    pub history: Vec<ConfigEntry>,
}

impl ConfigStore {
    /// An empty store.
    pub fn new() -> (r: ConfigStore)
        ensures
            configs_view(r.entries@) == Seq::<ConfigEntryModel>::empty(),
            configs_view(r.history@) == Seq::<ConfigEntryModel>::empty(),
    {
        let r = ConfigStore { entries: Vec::new(), history: Vec::new() };
        proof {
            assert(configs_view(r.entries@) =~= Seq::<ConfigEntryModel>::empty());
            assert(configs_view(r.history@) =~= Seq::<ConfigEntryModel>::empty());
        }
        r
    }

    /// Applies an entry: the current row is replaced or created, and the
    /// history row under the deterministic id `base id + update time` is
    /// written. Both `SetConfig` and `UpdateConfig` apply this way.
    pub fn insert_config(&mut self, e: ConfigEntry)
        requires
            spec_entry_wf(e@),
        ensures
            configs_view(final (self).entries@) == spec_insert_config(
                configs_view(old(self).entries@),
                e@,
            ),
            configs_view(final (self).history@) == spec_append_history(
                configs_view(old(self).history@),
                spec_history_row(e@),
            ),
    {
        let mut h = e.duplicate();
        h.id_ = e.id_ + e.update_time;
        proof {
            assert(h@ =~= spec_history_row(e@));
        }
        upsert_row_by_key(&mut self.entries, e);
        upsert_row_by_id(&mut self.history, h);
    }

    /// Deletes a current row and its history rows.
    pub fn delete_config(&mut self, namespace_id: &str, config_id: &str)
        ensures
            configs_view(final (self).entries@) == spec_delete_config(
                configs_view(old(self).entries@),
                namespace_id@,
                config_id@,
            ),
            configs_view(final (self).history@) == spec_delete_config(
                configs_view(old(self).history@),
                namespace_id@,
                config_id@,
            ),
    {
        retain_without_key(&mut self.entries, namespace_id, config_id);
        retain_without_key(&mut self.history, namespace_id, config_id);
    }

    /// Deletes every current row of a namespace (the cascade of a namespace
    /// deletion); history rows stay.
    pub fn delete_namespace_configs(&mut self, namespace_id: &str)
        ensures
            configs_view(final (self).entries@) == spec_delete_namespace_configs(
                configs_view(old(self).entries@),
                namespace_id@,
            ),
            final (self).history@ == old(self).history@,
    {
        retain_without_namespace(&mut self.entries, namespace_id);
    }

    /// The current row under a key, if any.
    pub fn get_config(&self, namespace_id: &str, config_id: &str) -> (r: Option<&ConfigEntry>)
        ensures
            match r {
                Some(e) => spec_lookup_config(configs_view(self.entries@), namespace_id@, config_id@)
                    == Some(e@),
                None => spec_lookup_config(configs_view(self.entries@), namespace_id@, config_id@)
                    is None,
            },
    {
        let ghost cv = configs_view(self.entries@);
        proof {
            assert(cv.skip(0) =~= cv);
        }
        let mut i: usize = 0;
        while i < self.entries.len()
            invariant
                i <= self.entries@.len(),
                cv == configs_view(self.entries@),
                spec_lookup_config(cv, namespace_id@, config_id@) == spec_lookup_config(
                    cv.skip(i as int),
                    namespace_id@,
                    config_id@,
                ),
            decreases self.entries@.len() - i,
        {
            proof {
                assert(cv.skip(i as int).drop_first() =~= cv.skip(i + 1));
                assert(cv.skip(i as int)[0] == cv[i as int]);
            }
            if str_eq(self.entries[i].namespace_id.as_str(), namespace_id) && str_eq(
                self.entries[i].id.as_str(),
                config_id,
            ) {
                return Some(&self.entries[i]);
            }
            i += 1;
        }
        proof {
            assert(cv.skip(cv.len() as int) =~= Seq::<ConfigEntryModel>::empty());
        }
        None
    }

    /// The first history row with the given id, if any: the row a recovery
    /// starts from.
    pub fn get_history_by_id(&self, id_: i64) -> (r: Option<&ConfigEntry>)
        ensures
            match r {
                Some(e) => spec_has_history(configs_view(self.history@), id_ as int) && e@.id_
                    == id_ as int && (exists|j: int|
                    0 <= j < self.history@.len() && #[trigger] configs_view(self.history@)[j]
                        == e@),
                None => !spec_has_history(configs_view(self.history@), id_ as int),
            },
    {
        let mut i: usize = 0;
        while i < self.history.len()
            invariant
                i <= self.history@.len(),
                forall|j: int|
                    0 <= j < i ==> (#[trigger] configs_view(self.history@)[j]).id_ != id_ as int,
            decreases self.history@.len() - i,
        {
            if self.history[i].id_ == id_ {
                proof {
                    assert(configs_view(self.history@)[i as int].id_ == id_ as int);
                }
                return Some(&self.history[i]);
            }
            i += 1;
        }
        None
    }

    /// The history rows of one key, newest first as stored.
    pub fn get_history(&self, namespace_id: &str, config_id: &str) -> (r: Vec<ConfigEntry>)
        ensures
            configs_view(r@) == configs_view(self.history@).filter(
                |m: ConfigEntryModel| m.namespace_id == namespace_id@ && m.id == config_id@,
            ),
    {
        let ghost p = |m: ConfigEntryModel| m.namespace_id == namespace_id@ && m.id == config_id@;
        let mut out: Vec<ConfigEntry> = Vec::new();
        let mut i: usize = 0;
        while i < self.history.len()
            invariant
                i <= self.history@.len(),
                configs_view(out@) == configs_view(self.history@.subrange(0, i as int)).filter(p),
                p == (|m: ConfigEntryModel| m.namespace_id == namespace_id@ && m.id == config_id@),
            decreases self.history@.len() - i,
        {
            proof {
                assert(self.history@.subrange(0, i + 1) =~= self.history@.subrange(0, i as int).push(
                    self.history@[i as int],
                ));
                assert(configs_view(self.history@.subrange(0, i as int).push(
                    self.history@[i as int],
                )) =~= configs_view(self.history@.subrange(0, i as int)).push(
                    self.history@[i as int]@,
                ));
                lemma_filter_push(
                    configs_view(self.history@.subrange(0, i as int)),
                    p,
                    self.history@[i as int]@,
                );
            }
            if str_eq(self.history[i].namespace_id.as_str(), namespace_id) && str_eq(
                self.history[i].id.as_str(),
                config_id,
            ) {
                let d = self.history[i].duplicate();
                out.push(d);
                proof {
                    assert(configs_view(out@) =~= configs_view(
                        self.history@.subrange(0, i + 1),
                    ).filter(p));
                }
            }
            i += 1;
        }
        proof {
            assert(self.history@.subrange(0, self.history@.len() as int) =~= self.history@);
        }
        out
    }
}

/// Deduplication: an upsert of content X on a fresh key, applied, leaves exactly one
/// current row and one history row; a second upsert of the same X is a no-op
/// (equal MD5), whatever its description, format, time or candidate id.
pub proof fn lemma_upsert_md5_idempotent(
    cs: Seq<ConfigEntryModel>,
    hs: Seq<ConfigEntryModel>,
    ns: Seq<char>,
    id: Seq<char>,
    content: Seq<char>,
    desc: Option<Seq<char>>,
    fmt: Seq<char>,
    now: int,
    next_id: int,
    desc2: Option<Seq<char>>,
    fmt2: Seq<char>,
    now2: int,
    next_id2: int,
)
    requires
        !spec_has_config(cs, ns, id),
        !spec_has_history(hs, next_id + now),
    ensures
        ({
            let plan1 = spec_plan_upsert(
                spec_lookup_config(cs, ns, id),
                ns,
                id,
                content,
                desc,
                fmt,
                now,
                next_id,
            );
            plan1 is Insert && {
                let e = plan1->Insert_0;
                let cs1 = spec_insert_config(cs, e);
                let hs1 = spec_append_history(hs, spec_history_row(e));
                &&& spec_lookup_config(cs1, ns, id) == Some(e)
                &&& spec_plan_upsert(
                    spec_lookup_config(cs1, ns, id),
                    ns,
                    id,
                    content,
                    desc2,
                    fmt2,
                    now2,
                    next_id2,
                ) is Unchanged
                &&& cs1.filter(|m: ConfigEntryModel| m.namespace_id == ns && m.id == id).len() == 1
                &&& hs1.filter(|m: ConfigEntryModel| m.id_ == next_id + now).len() == 1
            }
        }),
{
    broadcast use vstd::seq_lib::group_filter_ensures;

    lemma_lookup_config_none(cs, ns, id);
    let plan1 = spec_plan_upsert(None, ns, id, content, desc, fmt, now, next_id);
    let e = plan1->Insert_0;
    let cs1 = spec_insert_config(cs, e);
    let h = spec_history_row(e);
    let hs1 = spec_append_history(hs, h);
    assert(cs1 == seq![e] + cs);
    assert(cs1[0] == e);
    assert(spec_lookup_config(cs1, ns, id) == Some(e));

    let pc = |m: ConfigEntryModel| m.namespace_id == ns && m.id == id;
    Seq::filter_distributes_over_add(seq![e], cs, pc);
    assert(seq![e].drop_last() =~= Seq::<ConfigEntryModel>::empty());
    reveal(Seq::filter);
    assert(seq![e].filter(pc) =~= seq![e]);
    cs.lemma_all_neg_filter_empty(pc);
    assert(cs1.filter(pc) =~= seq![e] + cs.filter(pc));
    assert(cs1.filter(pc).len() == 1);

    let ph = |m: ConfigEntryModel| m.id_ == next_id + now;
    assert(h.id_ == next_id + now);
    assert(hs1 == seq![h] + hs);
    Seq::filter_distributes_over_add(seq![h], hs, ph);
    assert(seq![h].drop_last() =~= Seq::<ConfigEntryModel>::empty());
    assert(seq![h].filter(ph) =~= seq![h]);
    hs.lemma_all_neg_filter_empty(ph);
    assert(hs1.filter(ph) =~= seq![h] + hs.filter(ph));
    assert(hs1.filter(ph).len() == 1);
}


/// The page bounds of a listing: the rows from `(page_num - 1) * page_size`
/// on, at most `page_size` of them.
pub open spec fn spec_page_bounds(len: int, page_num: int, page_size: int) -> (int, int) {
    let off = (page_num - 1) * page_size;
    let lo = if off <= len {
        off
    } else {
        len
    };
    let hi = if off + page_size <= len {
        off + page_size
    } else {
        len
    };
    (lo, hi)
}

/// Cuts one page out of a row list.
fn page_rows(rows: Vec<ConfigEntry>, page_num: usize, page_size: usize) -> (r: (u64, Vec<
    ConfigEntry,
>))
    requires
        page_num >= 1,
    ensures
        r.0 as int == rows@.len(),
        ({
            let (lo, hi) = spec_page_bounds(
                rows@.len() as int,
                page_num as int,
                page_size as int,
            );
            configs_view(r.1@) == configs_view(rows@).subrange(lo, hi)
        }),
{
    let total = rows.len() as u64;
    proof {
        assert(((page_num - 1) as int) * (page_size as int) + (page_size as int) < u128::MAX as int)
            by (nonlinear_arith)
            requires
                0 <= (page_num - 1) as int <= 0xffffffffffffffffu64 as int,
                0 <= page_size as int <= 0xffffffffffffffffu64 as int,
        ;
    }
    let off128 = (page_num - 1) as u128 * page_size as u128;
    let lo: usize = if off128 <= rows.len() as u128 {
        off128 as usize
    } else {
        rows.len()
    };
    let hi: usize = if off128 + page_size as u128 <= rows.len() as u128 {
        (off128 + page_size as u128) as usize
    } else {
        rows.len()
    };
    let mut page: Vec<ConfigEntry> = Vec::new();
    let mut i: usize = lo;
    while i < hi
        invariant
            lo <= i <= hi <= rows@.len(),
            configs_view(page@) == configs_view(rows@).subrange(lo as int, i as int),
        decreases hi - i,
    {
        let d = rows[i].duplicate();
        page.push(d);
        proof {
            assert(configs_view(rows@).subrange(lo as int, i + 1) =~= configs_view(
                rows@,
            ).subrange(lo as int, i as int).push(configs_view(rows@)[i as int]));
            assert(configs_view(page@) =~= configs_view(rows@).subrange(lo as int, i as int).push(
                rows@[i as int]@,
            ));
            assert(configs_view(rows@)[i as int] == rows@[i as int]@);
            assert(configs_view(page@) =~= configs_view(rows@).subrange(lo as int, i + 1));
        }
        i += 1;
    }
    proof {
        if lo == hi {
            assert(configs_view(page@) =~= configs_view(rows@).subrange(lo as int, hi as int));
        }
    }
    (total, page)
}

impl ConfigStore {
    /// One page of a namespace's current rows, newest first as stored, with
    /// the total row count; an optional filter keeps only rows whose id or
    /// content contains the text.
    pub fn list_configs_with_page(
        &self,
        namespace_id: &str,
        page_num: usize,
        page_size: usize,
        filter_text: Option<&String>,
    ) -> (r: (u64, Vec<ConfigEntry>))
        requires
            page_num >= 1,
        ensures
            ({
                let filtered = configs_view(self.entries@).filter(
                    spec_list_pred(
                        namespace_id@,
                        match filter_text {
                            Some(t) => Some(encode_utf8(t@)),
                            None => None,
                        },
                    ),
                );
                let (lo, hi) = spec_page_bounds(
                    filtered.len() as int,
                    page_num as int,
                    page_size as int,
                );
                r.0 as int == filtered.len() && configs_view(r.1@) == filtered.subrange(lo, hi)
            }),
    {
        let ghost p = spec_list_pred(
            namespace_id@,
            match filter_text {
                Some(t) => Some(encode_utf8(t@)),
                None => None,
            },
        );
        let mut rows: Vec<ConfigEntry> = Vec::new();
        let mut i: usize = 0;
        while i < self.entries.len()
            invariant
                i <= self.entries@.len(),
                configs_view(rows@) == configs_view(self.entries@.subrange(0, i as int)).filter(p),
                p == spec_list_pred(
                    namespace_id@,
                    match filter_text {
                        Some(t) => Some(encode_utf8(t@)),
                        None => None,
                    },
                ),
            decreases self.entries@.len() - i,
        {
            proof {
                assert(self.entries@.subrange(0, i + 1) =~= self.entries@.subrange(0, i as int).push(
                    self.entries@[i as int],
                ));
                assert(configs_view(self.entries@.subrange(0, i as int).push(
                    self.entries@[i as int],
                )) =~= configs_view(self.entries@.subrange(0, i as int)).push(
                    self.entries@[i as int]@,
                ));
                lemma_filter_push(
                    configs_view(self.entries@.subrange(0, i as int)),
                    p,
                    self.entries@[i as int]@,
                );
            }
            let ns_hit = str_eq(self.entries[i].namespace_id.as_str(), namespace_id);
            let text_hit = match filter_text {
                Some(t) => crate::text::bytes_contains(
                    self.entries[i].id.as_str().as_bytes(),
                    t.as_str().as_bytes(),
                ) || crate::text::bytes_contains(
                    self.entries[i].content.as_str().as_bytes(),
                    t.as_str().as_bytes(),
                ),
                None => true,
            };
            if ns_hit && text_hit {
                let d = self.entries[i].duplicate();
                rows.push(d);
                proof {
                    assert(configs_view(rows@) =~= configs_view(
                        self.entries@.subrange(0, i + 1),
                    ).filter(p));
                }
            }
            i += 1;
        }
        proof {
            assert(self.entries@.subrange(0, self.entries@.len() as int) =~= self.entries@);
        }
        page_rows(rows, page_num, page_size)
    }

    /// One page of a key's history rows, newest first as stored, with the
    /// total row count.
    pub fn list_config_history_with_page(
        &self,
        namespace_id: &str,
        config_id: &str,
        page_num: usize,
        page_size: usize,
    ) -> (r: (u64, Vec<ConfigEntry>))
        requires
            page_num >= 1,
        ensures
            ({
                let filtered = configs_view(self.history@).filter(
                    |m: ConfigEntryModel| m.namespace_id == namespace_id@ && m.id == config_id@,
                );
                let (lo, hi) = spec_page_bounds(
                    filtered.len() as int,
                    page_num as int,
                    page_size as int,
                );
                r.0 as int == filtered.len() && configs_view(r.1@) == filtered.subrange(lo, hi)
            }),
    {
        let rows = self.get_history(namespace_id, config_id);
        page_rows(rows, page_num, page_size)
    }
}

/// The listing filter: the namespace must match, and when a filter text is
/// given, the id or the content must contain it.
pub open spec fn spec_list_pred(ns: Seq<char>, text: Option<Seq<u8>>) -> spec_fn(
    ConfigEntryModel,
) -> bool {
    |m: ConfigEntryModel|
        m.namespace_id == ns && (match text {
            Some(t) => crate::text::spec_contains_bytes(encode_utf8(m.id), t)
                || crate::text::spec_contains_bytes(encode_utf8(m.content), t),
            None => true,
        })
}


impl ConfigStore {
    /// Plans a recovery: reads the history row under the given id and
    /// decides the upsert that restores its content as the current entry
    /// (which, applied, writes a fresh history row). Fails exactly when no
    /// history row carries the id.
    pub fn plan_recover(&self, history_id: i64, now: i64, next_id: i64) -> (r: Result<
        UpsertPlan,
        (),
    >)
        ensures
            r is Err <==> !spec_has_history(configs_view(self.history@), history_id as int),
            match r {
                Ok(p) => exists|h: ConfigEntryModel|
                    #![all_triggers]
                    (exists|j: int|
                        0 <= j < self.history@.len() && configs_view(self.history@)[j] == h)
                        && h.id_ == history_id as int && p@ == spec_plan_upsert(
                        spec_lookup_config(configs_view(self.entries@), h.namespace_id, h.id),
                        h.namespace_id,
                        h.id,
                        h.content,
                        h.description,
                        h.format,
                        now as int,
                        next_id as int,
                    ),
                Err(_) => true,
            },
    {
        let h = match self.get_history_by_id(history_id) {
            Some(h) => h.duplicate(),
            None => {
                return Err(());
            },
        };
        let existing = self.get_config(h.namespace_id.as_str(), h.id.as_str());
        let plan = plan_upsert(
            existing,
            h.namespace_id.as_str(),
            h.id.as_str(),
            h.content.as_str(),
            clone_opt_string(&h.description),
            h.format.as_str(),
            now,
            next_id,
        );
        Ok(plan)
    }
}

} // verus!
