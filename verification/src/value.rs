//! A plain model of YAML/JSON-like documents: scalars, sequences and
//! mappings. Configuration contents are parsed into this type and the merge
//! and flatten rules are stated and proved over it. Non-integer numeric
//! scalars are carried in their decimal text form.

use vstd::prelude::*;

use crate::text::{spec_dec, spec_digit_char, str_eq, u64_to_string};
use vstd::string::StringExecFns;

verus! {

/// A parsed configuration document node.
#[derive(Debug)]
pub enum ConfigValue {
    Null,
    Bool(bool),
    Int(i64),
    /// A numeric scalar that is not an `i64`, in its decimal text form.
    Num(String),
    Str(String),
    Sequence(Vec<ConfigValue>),
    Mapping(Vec<(ConfigValue, ConfigValue)>),
}

/// Mathematical model of a document node.
#[verifier::ext_equal]
pub ghost enum ValueModel {
    Null,
    Bool(bool),
    Int(int),
    Num(Seq<char>),
    Str(Seq<char>),
    Sequence(Seq<ValueModel>),
    Mapping(Seq<(ValueModel, ValueModel)>),
}

/// The model of a document node.
pub open spec fn value_model(v: ConfigValue) -> ValueModel
    decreases v,
{
    match v {
        ConfigValue::Null => ValueModel::Null,
        ConfigValue::Bool(b) => ValueModel::Bool(b),
        ConfigValue::Int(i) => ValueModel::Int(i as int),
        ConfigValue::Num(s) => ValueModel::Num(s@),
        ConfigValue::Str(s) => ValueModel::Str(s@),
        ConfigValue::Sequence(xs) => ValueModel::Sequence(values_model(xs@)),
        ConfigValue::Mapping(ps) => ValueModel::Mapping(entries_model(ps@)),
    }
}

/// The models of a list of document nodes.
pub open spec fn values_model(xs: Seq<ConfigValue>) -> Seq<ValueModel>
    decreases xs,
{
    if xs.len() == 0 {
        Seq::empty()
    } else {
        values_model(xs.drop_last()).push(value_model(xs.last()))
    }
}

/// The models of a list of mapping entries.
pub open spec fn entries_model(ps: Seq<(ConfigValue, ConfigValue)>) -> Seq<
    (ValueModel, ValueModel),
>
    decreases ps,
{
    if ps.len() == 0 {
        Seq::empty()
    } else {
        entries_model(ps.drop_last()).push(
            (value_model(ps.last().0), value_model(ps.last().1)),
        )
    }
}

/// The model sequences index pointwise into the node models.
pub broadcast proof fn lemma_values_model_len(xs: Seq<ConfigValue>)
    ensures
        (#[trigger] values_model(xs)).len() == xs.len(),
        forall|i: int| 0 <= i < xs.len() ==> values_model(xs)[i] == value_model(#[trigger] xs[i]),
    decreases xs,
{
    if xs.len() > 0 {
        let d = xs.drop_last();
        lemma_values_model_len(d);
        assert forall|i: int| 0 <= i < xs.len() implies values_model(xs)[i] == value_model(
            #[trigger] xs[i],
        ) by {
            if i < xs.len() - 1 {
                assert(d[i] == xs[i]);
                assert(values_model(xs)[i] == values_model(d)[i]);
            } else {
                assert(values_model(xs)[i] == value_model(xs.last()));
            }
        }
    }
}

/// The entry model sequences index pointwise into the entry models.
pub broadcast proof fn lemma_entries_model_len(ps: Seq<(ConfigValue, ConfigValue)>)
    ensures
        (#[trigger] entries_model(ps)).len() == ps.len(),
        forall|i: int|
            0 <= i < ps.len() ==> entries_model(ps)[i] == (
            value_model((#[trigger] ps[i]).0),
            value_model(ps[i].1),
            ),
    decreases ps,
{
    if ps.len() > 0 {
        let d = ps.drop_last();
        lemma_entries_model_len(d);
        assert forall|i: int|
            0 <= i < ps.len() implies entries_model(ps)[i] == (
        value_model((#[trigger] ps[i]).0),
        value_model(ps[i].1),
        ) by {
            if i < ps.len() - 1 {
                assert(d[i] == ps[i]);
                assert(entries_model(ps)[i] == entries_model(d)[i]);
            } else {
                assert(entries_model(ps)[i] == (value_model(ps.last().0), value_model(
                    ps.last().1,
                )));
            }
        }
    }
}

impl View for ConfigValue {
    type V = ValueModel;

    open spec fn view(&self) -> ValueModel {
        value_model(*self)
    }
}

/// Structural equality of two document nodes.
#[verifier::loop_isolation(false)]
pub fn value_eq(a: &ConfigValue, b: &ConfigValue) -> (r: bool)
    ensures
        r == (a@ == b@),
    decreases *a,
{
    broadcast use lemma_values_model_len, lemma_entries_model_len;

    match (a, b) {
        (ConfigValue::Null, ConfigValue::Null) => {
            proof {
                assert(a@ == ValueModel::Null && b@ == ValueModel::Null);
            }
            true
        },
        (ConfigValue::Bool(x), ConfigValue::Bool(y)) => {
            proof {
                assert(a@ == ValueModel::Bool(*x) && b@ == ValueModel::Bool(*y));
            }
            x == y
        },
        (ConfigValue::Int(x), ConfigValue::Int(y)) => {
            proof {
                assert(a@ == ValueModel::Int(*x as int) && b@ == ValueModel::Int(*y as int));
            }
            x == y
        },
        (ConfigValue::Num(x), ConfigValue::Num(y)) => {
            let r = str_eq(x.as_str(), y.as_str());
            proof {
                assert(a@ == ValueModel::Num(x@));
                assert(b@ == ValueModel::Num(y@));
                if x@ == y@ {
                    assert(a@ =~= b@);
                }
            }
            r
        },
        (ConfigValue::Str(x), ConfigValue::Str(y)) => {
            let r = str_eq(x.as_str(), y.as_str());
            proof {
                assert(a@ == ValueModel::Str(x@));
                assert(b@ == ValueModel::Str(y@));
                if x@ == y@ {
                    assert(a@ =~= b@);
                }
            }
            r
        },
        (ConfigValue::Sequence(xs), ConfigValue::Sequence(ys)) => {
            proof {
                assert(*a == ConfigValue::Sequence(*xs));
                assert(*b == ConfigValue::Sequence(*ys));
                assert(a@ == ValueModel::Sequence(values_model(xs@)));
                assert(b@ == ValueModel::Sequence(values_model(ys@)));
            }
            if xs.len() != ys.len() {
                proof {
                    assert(a@->Sequence_0.len() != b@->Sequence_0.len());
                }
                return false;
            }
            let mut i: usize = 0;
            while i < xs.len()
                invariant
                    i <= xs@.len(),
                    xs@.len() == ys@.len(),
                    forall|k: int| 0 <= k < i ==> value_model(xs@[k]) == value_model(ys@[k]),
                decreases xs@.len() - i,
            {
                proof {
                    assert(decreases_to!(*a => *xs));
                    assert(decreases_to!(*xs => xs@[i as int]));
                }
                if !value_eq(&xs[i], &ys[i]) {
                    proof {
                        assert(a@->Sequence_0[i as int] != b@->Sequence_0[i as int]);
                    }
                    return false;
                }
                i += 1;
            }
            proof {
                assert forall|k: int|
                    0 <= k < xs@.len() implies values_model(xs@)[k] == values_model(ys@)[k] by {
                    assert(value_model(xs@[k]) == value_model(ys@[k]));
                }
                assert(values_model(xs@) =~= values_model(ys@));
                assert(a@ =~= b@);
            }
            true
        },
        (ConfigValue::Mapping(xs), ConfigValue::Mapping(ys)) => {
            proof {
                assert(*a == ConfigValue::Mapping(*xs));
                assert(*b == ConfigValue::Mapping(*ys));
                assert(a@ == ValueModel::Mapping(entries_model(xs@)));
                assert(b@ == ValueModel::Mapping(entries_model(ys@)));
            }
            if xs.len() != ys.len() {
                proof {
                    assert(a@->Mapping_0.len() != b@->Mapping_0.len());
                }
                return false;
            }
            let mut i: usize = 0;
            while i < xs.len()
                invariant
                    i <= xs@.len(),
                    xs@.len() == ys@.len(),
                    forall|k: int|
                        0 <= k < i ==> value_model(xs@[k].0) == value_model(ys@[k].0)
                            && value_model(xs@[k].1) == value_model(ys@[k].1),
                decreases xs@.len() - i,
            {
                proof {
                    assert(decreases_to!(*a => *xs));
                    assert(decreases_to!(*xs => xs@[i as int]));
                }
                if !value_eq(&xs[i].0, &ys[i].0) {
                    proof {
                        assert(a@->Mapping_0[i as int].0 != b@->Mapping_0[i as int].0);
                    }
                    return false;
                }
                if !value_eq(&xs[i].1, &ys[i].1) {
                    proof {
                        assert(a@->Mapping_0[i as int].1 != b@->Mapping_0[i as int].1);
                    }
                    return false;
                }
                i += 1;
            }
            proof {
                assert forall|k: int|
                    0 <= k < xs@.len() implies entries_model(xs@)[k] == entries_model(ys@)[k] by {
                    assert(value_model(xs@[k].0) == value_model(ys@[k].0));
                    assert(value_model(xs@[k].1) == value_model(ys@[k].1));
                }
                assert(entries_model(xs@) =~= entries_model(ys@));
                assert(a@ =~= b@);
            }
            true
        },
        _ => {
            proof {
                lemma_value_model_variant(*a);
                lemma_value_model_variant(*b);
            }
            false
        },
    }
}

/// The model constructor mirrors the node constructor.
pub proof fn lemma_value_model_variant(v: ConfigValue)
    ensures
        v is Null <==> value_model(v) is Null,
        v is Bool <==> value_model(v) is Bool,
        v is Int <==> value_model(v) is Int,
        v is Num <==> value_model(v) is Num,
        v is Str <==> value_model(v) is Str,
        v is Sequence <==> value_model(v) is Sequence,
        v is Mapping <==> value_model(v) is Mapping,
{
}

/// A deep copy of a document node.
#[verifier::loop_isolation(false)]
pub fn deep_copy(v: &ConfigValue) -> (r: ConfigValue)
    ensures
        r@ == v@,
    decreases *v,
{
    broadcast use lemma_values_model_len, lemma_entries_model_len;

    match v {
        ConfigValue::Null => ConfigValue::Null,
        ConfigValue::Bool(b) => ConfigValue::Bool(*b),
        ConfigValue::Int(i) => ConfigValue::Int(*i),
        ConfigValue::Num(s) => ConfigValue::Num(s.clone()),
        ConfigValue::Str(s) => ConfigValue::Str(s.clone()),
        ConfigValue::Sequence(xs) => {
            proof {
                assert(*v == ConfigValue::Sequence(*xs));
                assert(v@ == ValueModel::Sequence(values_model(xs@)));
            }
            let mut out: Vec<ConfigValue> = Vec::new();
            let mut i: usize = 0;
            while i < xs.len()
                invariant
                    i <= xs@.len(),
                    out@.len() == i,
                    forall|k: int| 0 <= k < i ==> value_model(#[trigger] out@[k]) == value_model(
                        xs@[k],
                    ),
                decreases xs@.len() - i,
            {
                proof {
                    assert(decreases_to!(*v => *xs));
                    assert(decreases_to!(*xs => xs@[i as int]));
                }
                let c = deep_copy(&xs[i]);
                out.push(c);
                i += 1;
            }
            let r = ConfigValue::Sequence(out);
            proof {
                assert forall|k: int|
                    0 <= k < xs@.len() implies values_model(out@)[k] == values_model(xs@)[k] by {
                    assert(value_model(out@[k]) == value_model(xs@[k]));
                }
                assert(values_model(out@) =~= values_model(xs@));
                assert(r@ =~= v@);
            }
            r
        },
        ConfigValue::Mapping(ps) => {
            proof {
                assert(*v == ConfigValue::Mapping(*ps));
                assert(v@ == ValueModel::Mapping(entries_model(ps@)));
            }
            let mut out: Vec<(ConfigValue, ConfigValue)> = Vec::new();
            let mut i: usize = 0;
            while i < ps.len()
                invariant
                    i <= ps@.len(),
                    out@.len() == i,
                    forall|k: int|
                        0 <= k < i ==> value_model((#[trigger] out@[k]).0) == value_model(
                            ps@[k].0,
                        ) && value_model(out@[k].1) == value_model(ps@[k].1),
                decreases ps@.len() - i,
            {
                proof {
                    assert(decreases_to!(*v => *ps));
                    assert(decreases_to!(*ps => ps@[i as int]));
                }
                let c0 = deep_copy(&ps[i].0);
                let c1 = deep_copy(&ps[i].1);
                out.push((c0, c1));
                i += 1;
            }
            let r = ConfigValue::Mapping(out);
            proof {
                assert forall|k: int|
                    0 <= k < ps@.len() implies entries_model(out@)[k] == entries_model(ps@)[k] by {
                    assert(value_model(out@[k].0) == value_model(ps@[k].0));
                    assert(value_model(out@[k].1) == value_model(ps@[k].1));
                }
                assert(entries_model(out@) =~= entries_model(ps@));
                assert(r@ =~= v@);
            }
            r
        },
    }
}

/// The decimal rendering of a signed integer.
pub open spec fn spec_int_str(i: int) -> Seq<char> {
    if i < 0 {
        seq!['-'] + spec_dec(-i)
    } else {
        spec_dec(i)
    }
}

/// Renders a signed integer in decimal.
pub fn i64_to_string(n: i64) -> (r: String)
    ensures
        r@ == spec_int_str(n as int),
{
    if n >= 0 {
        u64_to_string(n as u64)
    } else {
        // magnitude of n, computed without overflowing at i64::MIN
        let mag: u64 = ((-(n + 1)) as u64) + 1;
        let mut s = "-".to_owned();
        let digits = u64_to_string(mag);
        s.append(digits.as_str());
        proof {
            reveal_strlit("-");
            assert(mag as int == -(n as int));
            assert(s@ =~= spec_int_str(n as int));
        }
        s
    }
}


/// The node models distribute over push.
pub proof fn lemma_values_model_push(xs: Seq<ConfigValue>, x: ConfigValue)
    ensures
        values_model(xs.push(x)) == values_model(xs).push(value_model(x)),
{
    assert(xs.push(x).drop_last() =~= xs);
    assert(values_model(xs.push(x)) == values_model(xs).push(value_model(x)));
}

/// The entry models distribute over push.
pub proof fn lemma_entries_model_push(ps: Seq<(ConfigValue, ConfigValue)>, p: (ConfigValue, ConfigValue))
    ensures
        entries_model(ps.push(p)) == entries_model(ps).push(
            (value_model(p.0), value_model(p.1)),
        ),
{
    assert(ps.push(p).drop_last() =~= ps);
    assert(entries_model(ps.push(p)) == entries_model(ps).push(
        (value_model(p.0), value_model(p.1)),
    ));
}

} // verus!
