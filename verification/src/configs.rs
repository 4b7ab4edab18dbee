//! The client's configuration view: documents are merged in the order they
//! were listed (later documents override earlier ones on key conflicts,
//! recursively for mappings) and the merged document is flattened into a map
//! from dotted paths to leaf values.

use vstd::prelude::*;
use vstd::string::StringExecFns;
use vstd::string::StringSliceAdditionalSpecFns;

use crate::parse::{parse_yaml, yaml_doc_of};
use crate::text::{is_blank, spec_is_blank, str_eq};
use crate::value::{
    deep_copy, entries_model, i64_to_string, lemma_entries_model_len, lemma_entries_model_push,
    lemma_value_model_variant, lemma_values_model_len, spec_int_str, value_eq, value_model,
    ConfigValue, ValueModel,
};
use vstd::utf8::encode_utf8;

verus! {

/// Whether a mapping has an entry with the given key.
pub open spec fn spec_has_key(ps: Seq<(ValueModel, ValueModel)>, k: ValueModel) -> bool {
    exists|j: int| 0 <= j < ps.len() && (#[trigger] ps[j]).0 == k
}

/// One merge step: the source entry `(k, v)` lands in the target entries.
/// A present key has its value merged in place; a new key is appended.
pub open spec fn spec_merge_entry(
    tm: Seq<(ValueModel, ValueModel)>,
    k: ValueModel,
    v: ValueModel,
) -> Seq<(ValueModel, ValueModel)>
    decreases v, 1int,
{
    if spec_has_key(tm, k) {
        tm.map_values(
            |p: (ValueModel, ValueModel)|
                if p.0 == k {
                    (p.0, spec_merge(p.1, v))
                } else {
                    p
                },
        )
    } else {
        tm.push((k, v))
    }
}

/// The target entries after every source entry has been merged in, in order.
pub open spec fn spec_merge_entries(
    tm: Seq<(ValueModel, ValueModel)>,
    sm: Seq<(ValueModel, ValueModel)>,
) -> Seq<(ValueModel, ValueModel)>
    decreases sm, 2int,
{
    if sm.len() == 0 {
        tm
    } else {
        spec_merge_entries(spec_merge_entry(tm, sm[0].0, sm[0].1), sm.drop_first())
    }
}

/// The merge rule: two mappings merge entry by entry, recursively; in every
/// other case the source replaces the target.
pub open spec fn spec_merge(t: ValueModel, s: ValueModel) -> ValueModel
    decreases s, 0int,
{
    if t is Mapping && s is Mapping {
        ValueModel::Mapping(spec_merge_entries(t->Mapping_0, s->Mapping_0))
    } else {
        s
    }
}

/// The text of a mapping key in a flattened path: strings stand as they are,
/// integers in decimal, other numbers in their decimal text form, and any
/// other key as `unknown`.
pub open spec fn spec_key_str(k: ValueModel) -> Seq<char> {
    match k {
        ValueModel::Str(s) => s,
        ValueModel::Int(i) => spec_int_str(i),
        ValueModel::Num(s) => s,
        _ => "unknown"@,
    }
}

/// The dotted path of a child key under a prefix.
pub open spec fn spec_child_prefix(prefix: Seq<char>, k: ValueModel) -> Seq<char> {
    if prefix.len() == 0 {
        spec_key_str(k)
    } else {
        prefix + seq!['.'] + spec_key_str(k)
    }
}

/// Whether the flattened map has an entry under the given path.
pub open spec fn spec_flat_has(fm: Seq<(Seq<char>, ValueModel)>, key: Seq<char>) -> bool {
    exists|j: int| 0 <= j < fm.len() && (#[trigger] fm[j]).0 == key
}

/// Inserting into the flattened map: a present path is overwritten, a new
/// path appended.
pub open spec fn spec_flat_insert(
    fm: Seq<(Seq<char>, ValueModel)>,
    key: Seq<char>,
    v: ValueModel,
) -> Seq<(Seq<char>, ValueModel)> {
    if spec_flat_has(fm, key) {
        fm.map_values(
            |p: (Seq<char>, ValueModel)|
                if p.0 == key {
                    (p.0, v)
                } else {
                    p
                },
        )
    } else {
        fm.push((key, v))
    }
}

/// The flatten rule: a mapping's children land under `prefix.key`; any other
/// node is a leaf stored at its path.
pub open spec fn spec_flatten(
    fm: Seq<(Seq<char>, ValueModel)>,
    prefix: Seq<char>,
    v: ValueModel,
) -> Seq<(Seq<char>, ValueModel)>
    decreases v,
{
    match v {
        ValueModel::Mapping(ps) => spec_flatten_entries(fm, prefix, ps),
        _ => spec_flat_insert(fm, prefix, v),
    }
}

/// Flattens a mapping's entries in order.
pub open spec fn spec_flatten_entries(
    fm: Seq<(Seq<char>, ValueModel)>,
    prefix: Seq<char>,
    ps: Seq<(ValueModel, ValueModel)>,
) -> Seq<(Seq<char>, ValueModel)>
    decreases ps,
{
    if ps.len() == 0 {
        fm
    } else {
        spec_flatten_entries(
            spec_flatten(fm, spec_child_prefix(prefix, ps[0].0), ps[0].1),
            prefix,
            ps.drop_first(),
        )
    }
}

/// The first value stored under a path in the flattened map.
pub open spec fn spec_lookup(fm: Seq<(Seq<char>, ValueModel)>, key: Seq<char>) -> Option<
    ValueModel,
>
    decreases fm.len(),
{
    if fm.len() == 0 {
        None
    } else if fm[0].0 == key {
        Some(fm[0].1)
    } else {
        spec_lookup(fm.drop_first(), key)
    }
}

/// The view of a flattened map.
pub open spec fn flat_view(s: Seq<(String, ConfigValue)>) -> Seq<(Seq<char>, ValueModel)> {
    s.map_values(|p: (String, ConfigValue)| (p.0@, value_model(p.1)))
}

/// Merging the non-blank documents of a list into an accumulator, in order;
/// `None` when one of them does not parse.
pub open spec fn spec_merge_fold(acc: ValueModel, contents: Seq<Seq<char>>) -> Option<ValueModel>
    decreases contents.len(),
{
    if contents.len() == 0 {
        Some(acc)
    } else if spec_is_blank(encode_utf8(contents[0])) {
        spec_merge_fold(acc, contents.drop_first())
    } else {
        match yaml_doc_of(contents[0]) {
            None => None,
            Some(d) => spec_merge_fold(spec_merge(acc, d), contents.drop_first()),
        }
    }
}

/// The merged document of a list of configuration texts: blank texts are
/// skipped, the rest are parsed and merged in order onto an empty mapping.
pub open spec fn spec_merged_docs(contents: Seq<Seq<char>>) -> Option<ValueModel> {
    spec_merge_fold(ValueModel::Mapping(Seq::empty()), contents)
}

/// Copies a list of mapping entries.
fn clone_pairs(ps: &Vec<(ConfigValue, ConfigValue)>) -> (r: Vec<(ConfigValue, ConfigValue)>)
    ensures
        entries_model(r@) == entries_model(ps@),
{
    broadcast use lemma_entries_model_len;

    let mut r: Vec<(ConfigValue, ConfigValue)> = Vec::new();
    let mut i: usize = 0;
    while i < ps.len()
        invariant
            i <= ps@.len(),
            r@.len() == i,
            forall|k: int|
                0 <= k < i ==> value_model((#[trigger] r@[k]).0) == value_model(ps@[k].0)
                    && value_model(r@[k].1) == value_model(ps@[k].1),
        decreases ps@.len() - i,
    {
        let c0 = deep_copy(&ps[i].0);
        let c1 = deep_copy(&ps[i].1);
        r.push((c0, c1));
        i += 1;
    }
    proof {
        assert forall|k: int|
            0 <= k < ps@.len() implies entries_model(r@)[k] == entries_model(ps@)[k] by {
            assert(value_model(r@[k].0) == value_model(ps@[k].0));
        }
        assert(entries_model(r@) =~= entries_model(ps@));
    }
    r
}

/// Whether the entries contain the given key.
fn has_key(ps: &Vec<(ConfigValue, ConfigValue)>, k: &ConfigValue) -> (r: bool)
    ensures
        r == spec_has_key(entries_model(ps@), k@),
{
    broadcast use lemma_entries_model_len;

    let mut i: usize = 0;
    while i < ps.len()
        invariant
            i <= ps@.len(),
            forall|j: int| 0 <= j < i ==> (#[trigger] entries_model(ps@)[j]).0 != k@,
        decreases ps@.len() - i,
    {
        let hit = value_eq(&ps[i].0, k);
        proof {
            lemma_entries_model_len(ps@);
            assert(entries_model(ps@)[i as int] == (
                value_model(ps@[i as int].0),
                value_model(ps@[i as int].1),
            ));
        }
        if hit {
            proof {
                assert(entries_model(ps@)[i as int].0 == k@);
            }
            return true;
        }
        i += 1;
    }
    false
}

/// Merges two documents: later values override earlier ones, recursively for
/// mappings.
#[verifier::loop_isolation(false)]
pub fn merge_values(target: &ConfigValue, source: &ConfigValue) -> (r: ConfigValue)
    ensures
        r@ == spec_merge(target@, source@),
    decreases *source,
{
    broadcast use lemma_entries_model_len, lemma_values_model_len;

    match (target, source) {
        (ConfigValue::Mapping(tm), ConfigValue::Mapping(sm)) => {
            proof {
                assert(*target == ConfigValue::Mapping(*tm));
                assert(*source == ConfigValue::Mapping(*sm));
                assert(target@ == ValueModel::Mapping(entries_model(tm@)));
                assert(source@ == ValueModel::Mapping(entries_model(sm@)));
            }
            let ghost tm0 = entries_model(tm@);
            let ghost sm0 = entries_model(sm@);
            let mut out = clone_pairs(tm);
            proof {
                assert(sm0.skip(0) =~= sm0);
            }
            let mut i: usize = 0;
            while i < sm.len()
                invariant
                    i <= sm@.len(),
                    spec_merge_entries(tm0, sm0) == spec_merge_entries(
                        entries_model(out@),
                        sm0.skip(i as int),
                    ),
                decreases sm@.len() - i,
            {
                proof {
                    assert(sm0.skip(i as int).drop_first() =~= sm0.skip(i + 1));
                    assert(sm0.skip(i as int)[0] == sm0[i as int]);
                }
                let k = &sm[i].0;
                let v = &sm[i].1;
                proof {
                    assert(decreases_to!(*source => *sm));
                    assert(decreases_to!(*sm => sm@[i as int]));
                }
                if has_key(&out, k) {
                    let mut nout: Vec<(ConfigValue, ConfigValue)> = Vec::new();
                    let mut j: usize = 0;
                    while j < out.len()
                        invariant
                            j <= out@.len(),
                            nout@.len() == j,
                            forall|g: int|
                                0 <= g < j ==> (
                                value_model((#[trigger] nout@[g]).0),
                                value_model(nout@[g].1),
                                ) == if entries_model(out@)[g].0 == k@ {
                                    (
                                        entries_model(out@)[g].0,
                                        spec_merge(entries_model(out@)[g].1, v@),
                                    )
                                } else {
                                    entries_model(out@)[g]
                                },
                        decreases out@.len() - j,
                    {
                        if value_eq(&out[j].0, k) {
                            let c0 = deep_copy(&out[j].0);
                            let c1 = merge_values(&out[j].1, v);
                            nout.push((c0, c1));
                        } else {
                            let c0 = deep_copy(&out[j].0);
                            let c1 = deep_copy(&out[j].1);
                            nout.push((c0, c1));
                        }
                        j += 1;
                    }
                    proof {
                        assert forall|g: int|
                            0 <= g < out@.len() implies entries_model(nout@)[g]
                            == spec_merge_entry(entries_model(out@), k@, v@)[g] by {
                            assert(entries_model(nout@)[g] == (
                                value_model(nout@[g].0),
                                value_model(nout@[g].1),
                            ));
                        }
                        assert(entries_model(nout@) =~= spec_merge_entry(
                            entries_model(out@),
                            k@,
                            v@,
                        ));
                    }
                    out = nout;
                } else {
                    let c0 = deep_copy(k);
                    let c1 = deep_copy(v);
                    let ghost out_before = out@;
                    out.push((c0, c1));
                    proof {
                        lemma_entries_model_push(out_before, out@[out@.len() - 1]);
                        assert(out@ =~= out_before.push(out@[out@.len() - 1]));
                        assert(entries_model(out@) == entries_model(out_before).push((k@, v@)));
                        assert(!spec_has_key(entries_model(out_before), k@));
                        assert(entries_model(out@) =~= spec_merge_entry(
                            entries_model(out_before),
                            k@,
                            v@,
                        ));
                    }
                }
                i += 1;
            }
            proof {
                assert(sm0.skip(sm0.len() as int) =~= Seq::<(ValueModel, ValueModel)>::empty());
                assert(spec_merge_entries(tm0, sm0) == entries_model(out@));
            }
            let ghost outm = entries_model(out@);
            let r = ConfigValue::Mapping(out);
            proof {
                assert(r@ == ValueModel::Mapping(outm));
            }
            r
        },
        _ => {
            proof {
                lemma_value_model_variant(*target);
                lemma_value_model_variant(*source);
            }
            deep_copy(source)
        },
    }
}


/// The path text of one mapping key.
fn key_str(k: &ConfigValue) -> (r: String)
    ensures
        r@ == spec_key_str(k@),
{
    match k {
        ConfigValue::Str(s) => {
            proof {
                assert(k@ == ValueModel::Str(s@));
            }
            s.clone()
        },
        ConfigValue::Int(i) => {
            proof {
                assert(k@ == ValueModel::Int(*i as int));
            }
            i64_to_string(*i)
        },
        ConfigValue::Num(s) => {
            proof {
                assert(k@ == ValueModel::Num(s@));
            }
            s.clone()
        },
        _ => {
            proof {
                lemma_value_model_variant(*k);
            }
            "unknown".to_owned()
        },
    }
}

/// The dotted path of a child key under a prefix.
fn child_prefix(prefix: &str, k: &ConfigValue) -> (r: String)
    ensures
        r@ == spec_child_prefix(prefix@, k@),
{
    let ks = key_str(k);
    if prefix.is_empty() {
        ks
    } else {
        let mut s = prefix.to_owned();
        s.append(".");
        s.append(ks.as_str());
        proof {
            reveal_strlit(".");
            assert(s@ =~= spec_child_prefix(prefix@, k@));
        }
        s
    }
}

/// Whether the flattened map holds the given path.
fn flat_has(fm: &Vec<(String, ConfigValue)>, key: &str) -> (r: bool)
    ensures
        r == spec_flat_has(flat_view(fm@), key@),
{
    let mut i: usize = 0;
    while i < fm.len()
        invariant
            i <= fm@.len(),
            forall|j: int| 0 <= j < i ==> (#[trigger] flat_view(fm@)[j]).0 != key@,
        decreases fm@.len() - i,
    {
        if str_eq(fm[i].0.as_str(), key) {
            proof {
                assert(flat_view(fm@)[i as int].0 == key@);
            }
            return true;
        }
        i += 1;
    }
    false
}

/// Stores a leaf under a path: a present path is overwritten, a new one
/// appended.
fn flat_insert(fm: &mut Vec<(String, ConfigValue)>, key: &str, v: ConfigValue)
    ensures
        flat_view(final (fm)@) == spec_flat_insert(flat_view(old(fm)@), key@, v@),
{
    if flat_has(fm, key) {
        let mut nfm: Vec<(String, ConfigValue)> = Vec::new();
        let mut j: usize = 0;
        while j < fm.len()
            invariant
                j <= fm@.len(),
                old(fm)@ == fm@,
                nfm@.len() == j,
                forall|g: int|
                    0 <= g < j ==> (#[trigger] nfm@[g]).0@ == fm@[g].0@ && value_model(nfm@[g].1)
                        == (if fm@[g].0@ == key@ {
                        v@
                    } else {
                        value_model(fm@[g].1)
                    }),
            decreases fm@.len() - j,
        {
            if str_eq(fm[j].0.as_str(), key) {
                let c = deep_copy(&v);
                nfm.push((fm[j].0.clone(), c));
            } else {
                let c = deep_copy(&fm[j].1);
                nfm.push((fm[j].0.clone(), c));
            }
            j += 1;
        }
        *fm = nfm;
        proof {
            let fv = flat_view(old(fm)@);
            assert forall|g: int|
                0 <= g < fv.len() implies flat_view(fm@)[g] == spec_flat_insert(fv, key@, v@)[g] by {
                assert(fm@[g].0@ == old(fm)@[g].0@);
            }
            assert(flat_view(fm@) =~= spec_flat_insert(flat_view(old(fm)@), key@, v@));
        }
    } else {
        let ghost before = fm@;
        fm.push((key.to_owned(), v));
        proof {
            assert(flat_view(fm@) =~= spec_flat_insert(flat_view(before), key@, v@));
        }
    }
}

/// Flattens a document into dotted-path leaves under the given prefix.
#[verifier::loop_isolation(false)]
pub fn flatten_into(fm: &mut Vec<(String, ConfigValue)>, prefix: &str, v: &ConfigValue)
    ensures
        flat_view(final (fm)@) == spec_flatten(flat_view(old(fm)@), prefix@, v@),
    decreases *v,
{
    broadcast use lemma_entries_model_len;

    match v {
        ConfigValue::Mapping(ps) => {
            proof {
                assert(*v == ConfigValue::Mapping(*ps));
                assert(v@ == ValueModel::Mapping(entries_model(ps@)));
            }
            let ghost fm0 = flat_view(fm@);
            let ghost pm = entries_model(ps@);
            proof {
                assert(pm.skip(0) =~= pm);
            }
            let mut i: usize = 0;
            while i < ps.len()
                invariant
                    i <= ps@.len(),
                    spec_flatten_entries(fm0, prefix@, pm) == spec_flatten_entries(
                        flat_view(fm@),
                        prefix@,
                        pm.skip(i as int),
                    ),
                decreases ps@.len() - i,
            {
                proof {
                    assert(pm.skip(i as int).drop_first() =~= pm.skip(i + 1));
                    assert(pm.skip(i as int)[0] == pm[i as int]);
                    assert(pm[i as int] == (
                        value_model(ps@[i as int].0),
                        value_model(ps@[i as int].1),
                    ));
                    assert(decreases_to!(*v => *ps));
                    assert(decreases_to!(*ps => ps@[i as int]));
                }
                let cp = child_prefix(prefix, &ps[i].0);
                flatten_into(fm, cp.as_str(), &ps[i].1);
                i += 1;
            }
            proof {
                assert(pm.skip(pm.len() as int) =~= Seq::<(ValueModel, ValueModel)>::empty());
            }
        },
        _ => {
            proof {
                lemma_value_model_variant(*v);
            }
            let c = deep_copy(v);
            flat_insert(fm, prefix, c);
        },
    }
}

/// The merged and flattened configuration a client works from: the merged
/// document itself, and the map from dotted paths to leaf values.
pub struct Configs {
    pub configs: Vec<(String, ConfigValue)>,
    pub content: ConfigValue,
}

impl Configs {
    /// The flattened map is exactly the flattening of the merged document.
    pub open spec fn wf(&self) -> bool {
        flat_view(self.configs@) == spec_flatten(
            Seq::empty(),
            Seq::<char>::empty(),
            self.content@,
        )
    }

    /// Parses, merges and flattens a list of configuration texts, in order:
    /// later documents override earlier ones. Fails exactly when some
    /// non-blank text does not parse.
    pub fn from_contents(contents: Vec<String>) -> (r: Result<Configs, ()>)
        ensures
            match r {
                Ok(c) => spec_merged_docs(contents@.map_values(|s: String| s@)) == Some(c.content@)
                    && c.wf(),
                Err(_) => spec_merged_docs(contents@.map_values(|s: String| s@)) is None,
            },
    {
        let ghost cs = contents@.map_values(|s: String| s@);
        let mut merged = ConfigValue::Mapping(Vec::new());
        proof {
            assert(entries_model(Seq::<(ConfigValue, ConfigValue)>::empty()) =~= Seq::<
                (ValueModel, ValueModel),
            >::empty());
            assert(merged@ == ValueModel::Mapping(Seq::<(ValueModel, ValueModel)>::empty()));
            assert(cs.skip(0) =~= cs);
        }
        let mut i: usize = 0;
        while i < contents.len()
            invariant
                i <= contents@.len(),
                cs == contents@.map_values(|s: String| s@),
                spec_merged_docs(cs) == spec_merge_fold(merged@, cs.skip(i as int)),
            decreases contents@.len() - i,
        {
            proof {
                assert(cs.skip(i as int).drop_first() =~= cs.skip(i + 1));
                assert(cs.skip(i as int)[0] == cs[i as int]);
                assert(cs[i as int] == contents@[i as int]@);
            }
            if !is_blank(contents[i].as_str()) {
                match parse_yaml(contents[i].as_str()) {
                    Some(doc) => {
                        let m2 = merge_values(&merged, &doc);
                        merged = m2;
                    },
                    None => {
                        return Err(());
                    },
                }
            }
            i += 1;
        }
        proof {
            assert(cs.skip(cs.len() as int) =~= Seq::<Seq<char>>::empty());
        }
        let mut flat: Vec<(String, ConfigValue)> = Vec::new();
        proof {
            assert(flat_view(flat@) =~= Seq::<(Seq<char>, ValueModel)>::empty());
            reveal_strlit("");
            assert(""@ =~= Seq::<char>::empty());
        }
        flatten_into(&mut flat, "", &merged);
        Ok(Configs { configs: flat, content: merged })
    }

    /// The leaf stored under a dotted path, if any.
    pub fn get(&self, key: &str) -> (r: Option<&ConfigValue>)
        ensures
            match r {
                Some(v) => spec_lookup(flat_view(self.configs@), key@) == Some(v@),
                None => spec_lookup(flat_view(self.configs@), key@) is None,
            },
    {
        let ghost fv = flat_view(self.configs@);
        proof {
            assert(fv.skip(0) =~= fv);
        }
        let mut i: usize = 0;
        while i < self.configs.len()
            invariant
                i <= self.configs@.len(),
                fv == flat_view(self.configs@),
                spec_lookup(fv, key@) == spec_lookup(fv.skip(i as int), key@),
            decreases self.configs@.len() - i,
        {
            proof {
                assert(fv.skip(i as int).drop_first() =~= fv.skip(i + 1));
                assert(fv.skip(i as int)[0] == fv[i as int]);
            }
            if str_eq(self.configs[i].0.as_str(), key) {
                return Some(&self.configs[i].1);
            }
            i += 1;
        }
        proof {
            assert(fv.skip(fv.len() as int) =~= Seq::<(Seq<char>, ValueModel)>::empty());
        }
        None
    }

    /// Whether a dotted path is present.
    pub fn contains(&self, key: &str) -> (r: bool)
        ensures
            r == (spec_lookup(flat_view(self.configs@), key@) is Some),
    {
        self.get(key).is_some()
    }

    /// Every flattened entry.
    pub fn get_all(&self) -> (r: &Vec<(String, ConfigValue)>)
        ensures
            r == &self.configs,
    {
        &self.configs
    }
}


/// The compensating refresh masks missed change events: the rebuilt view is
/// a function of the fetched contents alone, so whether a rebuild was
/// triggered by the watcher or by the periodic refresh, fetching the same
/// contents from the server yields the same merged document and the same
/// flattened view.
pub proof fn lemma_refresh_converges(
    watcher_fetch: Seq<Seq<char>>,
    periodic_fetch: Seq<Seq<char>>,
)
    requires
        watcher_fetch == periodic_fetch,
    ensures
        spec_merged_docs(watcher_fetch) == spec_merged_docs(periodic_fetch),
        match spec_merged_docs(watcher_fetch) {
            Some(doc) => spec_flatten(Seq::empty(), Seq::<char>::empty(), doc) == spec_flatten(
                Seq::empty(),
                Seq::<char>::empty(),
                spec_merged_docs(periodic_fetch)->Some_0,
            ),
            None => true,
        },
{
}

} // verus!
