//! The document tree and its mathematical model.
use vstd::prelude::*;

verus! {

/// A YAML number: signed, unsigned or floating point. A float is held as its
/// IEEE-754 bit pattern, so that the tree stays free of floating-point code.
#[derive(Clone, Copy, Debug)]
pub enum Number {
    Int(i64),
    UInt(u64),
    Float(u64),
}

/// A node carrying a tag string, such as `!custom` or `!merge:replace`.
#[derive(Debug)]
pub struct TaggedValue {
    pub tag: String,
    pub value: Value,
}

/// A document tree. A mapping is a list of key/value entries kept in
/// insertion order; its keys are unique (see `well_formed`).
#[derive(Debug)]
pub enum Value {
    Null,
    Bool(bool),
    Number(Number),
    String(String),
    Sequence(Vec<Value>),
    Mapping(Vec<(Value, Value)>),
    Tagged(Box<TaggedValue>),
}

/// The mathematical model of a `Value`. Signed and unsigned integers are both
/// modelled as `Int`, so that they compare by numeric value. Equality of
/// models is the equality of trees (see `values_equal`).
pub enum Yaml {
    Null,
    Bool(bool),
    Int(int),
    Float(u64),
    Str(Seq<char>),
    List(Seq<Yaml>),
    Dict(Seq<(Yaml, Yaml)>),
    Tagged(Seq<char>, Box<Yaml>),
}

pub open spec fn number_model(n: Number) -> Yaml {
    match n {
        Number::Int(i) => Yaml::Int(i as int),
        Number::UInt(u) => Yaml::Int(u as int),
        Number::Float(b) => Yaml::Float(b),
    }
}

pub open spec fn value_model(v: Value) -> Yaml
    decreases v,
{
    match v {
        Value::Null => Yaml::Null,
        Value::Bool(b) => Yaml::Bool(b),
        Value::Number(n) => number_model(n),
        Value::String(s) => Yaml::Str(s@),
        Value::Sequence(items) => Yaml::List(models(items@)),
        Value::Mapping(entries) => Yaml::Dict(entry_models(entries@)),
        Value::Tagged(t) => Yaml::Tagged(t.tag@, Box::new(value_model(t.value))),
    }
}

/// The models of a list of values, element by element.
pub open spec fn models(s: Seq<Value>) -> Seq<Yaml>
    decreases s,
{
    if s.len() == 0 {
        Seq::empty()
    } else {
        models(s.drop_last()).push(value_model(s.last()))
    }
}

/// The models of a list of mapping entries, entry by entry.
pub open spec fn entry_models(s: Seq<(Value, Value)>) -> Seq<(Yaml, Yaml)>
    decreases s,
{
    if s.len() == 0 {
        Seq::empty()
    } else {
        entry_models(s.drop_last()).push(
            (value_model(s.last().0), value_model(s.last().1)),
        )
    }
}

/// No two entries have equal keys.
pub open spec fn distinct_keys(es: Seq<(Yaml, Yaml)>) -> bool {
    forall|i: int, j: int| 0 <= i < j < es.len() ==> es[i].0 != es[j].0
}

/// Every mapping in the tree has distinct keys.
pub open spec fn well_formed(v: Yaml) -> bool
    decreases v,
{
    match v {
        Yaml::List(xs) => forall|i: int| 0 <= i < xs.len() ==> well_formed(#[trigger] xs[i]),
        Yaml::Dict(es) => distinct_keys(es) && forall|i: int|
            0 <= i < es.len() ==> well_formed(#[trigger] es[i].0) && well_formed(es[i].1),
        Yaml::Tagged(_, inner) => well_formed(*inner),
        _ => true,
    }
}

impl View for Value {
    type V = Yaml;

    open spec fn view(&self) -> Yaml {
        value_model(*self)
    }
}

pub proof fn lemma_models(s: Seq<Value>)
    ensures
        models(s).len() == s.len(),
        forall|i: int| 0 <= i < s.len() ==> #[trigger] models(s)[i] == value_model(s[i]),
    decreases s.len(),
{
    if s.len() > 0 {
        lemma_models(s.drop_last());
    }
}

pub proof fn lemma_entry_models(s: Seq<(Value, Value)>)
    ensures
        entry_models(s).len() == s.len(),
        forall|i: int|
            0 <= i < s.len() ==> #[trigger] entry_models(s)[i] == (
                value_model(s[i].0),
                value_model(s[i].1),
            ),
    decreases s.len(),
{
    if s.len() > 0 {
        lemma_entry_models(s.drop_last());
    }
}

pub proof fn lemma_models_update(s: Seq<Value>, i: int, x: Value)
    requires
        0 <= i < s.len(),
    ensures
        models(s.update(i, x)) == models(s).update(i, value_model(x)),
{
    lemma_models(s);
    lemma_models(s.update(i, x));
    assert(models(s.update(i, x)) =~= models(s).update(i, value_model(x)));
}

pub proof fn lemma_models_remove(s: Seq<Value>, i: int)
    requires
        0 <= i < s.len(),
    ensures
        models(s.remove(i)) == models(s).remove(i),
{
    lemma_models(s);
    lemma_models(s.remove(i));
    assert(models(s.remove(i)) =~= models(s).remove(i));
}

pub proof fn lemma_models_push(s: Seq<Value>, x: Value)
    ensures
        models(s.push(x)) == models(s).push(value_model(x)),
{
    assert(s.push(x).drop_last() =~= s);
}

pub proof fn lemma_entry_models_update(s: Seq<(Value, Value)>, i: int, e: (Value, Value))
    requires
        0 <= i < s.len(),
    ensures
        entry_models(s.update(i, e)) == entry_models(s).update(
            i,
            (value_model(e.0), value_model(e.1)),
        ),
{
    lemma_entry_models(s);
    lemma_entry_models(s.update(i, e));
    assert(entry_models(s.update(i, e)) =~= entry_models(s).update(
        i,
        (value_model(e.0), value_model(e.1)),
    ));
}

pub proof fn lemma_entry_models_remove(s: Seq<(Value, Value)>, i: int)
    requires
        0 <= i < s.len(),
    ensures
        entry_models(s.remove(i)) == entry_models(s).remove(i),
{
    lemma_entry_models(s);
    lemma_entry_models(s.remove(i));
    assert(entry_models(s.remove(i)) =~= entry_models(s).remove(i));
}

pub proof fn lemma_entry_models_push(s: Seq<(Value, Value)>, e: (Value, Value))
    ensures
        entry_models(s.push(e)) == entry_models(s).push((value_model(e.0), value_model(e.1))),
{
    assert(s.push(e).drop_last() =~= s);
}

/// Numeric equality: integers compare by value whatever their width, floats by
/// their bits; an integer and a float are never equal.
pub fn numbers_equal(a: &Number, b: &Number) -> (r: bool)
    ensures
        r == (number_model(*a) == number_model(*b)),
{
    match (a, b) {
        (Number::Int(x), Number::Int(y)) => *x == *y,
        (Number::UInt(x), Number::UInt(y)) => *x == *y,
        (Number::Int(x), Number::UInt(y)) => *x >= 0 && *x as u64 == *y,
        (Number::UInt(x), Number::Int(y)) => *y >= 0 && *x == *y as u64,
        (Number::Float(x), Number::Float(y)) => *x == *y,
        _ => false,
    }
}

/// Deep equality of two trees: the same shape and contents, sequences and
/// mapping entries compared in order. This is the equality that sequence
/// merges use to find repeated items. Two choices differ from a parser's
/// own `Value` equality: mappings with the same entries in another order
/// are different here, and an integer never equals a float (deciding
/// `1 == 1.0` needs floating-point conversion, which the library does not
/// hold).
pub fn values_equal(a: &Value, b: &Value) -> (r: bool)
    ensures
        r == (a@ == b@),
    decreases a,
{
    match (a, b) {
        (Value::Null, Value::Null) => true,
        (Value::Bool(x), Value::Bool(y)) => *x == *y,
        (Value::Number(x), Value::Number(y)) => numbers_equal(x, y),
        (Value::String(x), Value::String(y)) => *x == *y,
        (Value::Sequence(xs), Value::Sequence(ys)) => {
            proof {
                lemma_models(xs@);
                lemma_models(ys@);
            }
            if xs.len() != ys.len() {
                assert(models(xs@).len() != models(ys@).len());
                return false;
            }
            let mut i: usize = 0;
            while i < xs.len()
                invariant
                    xs.len() == ys.len(),
                    0 <= i <= xs.len(),
                    forall|k: int| 0 <= k < i ==> value_model(xs@[k]) == value_model(ys@[k]),
                    *a == Value::Sequence(*xs),
                    *b == Value::Sequence(*ys),
                decreases xs.len() - i,
            {
                proof { assert(decreases_to!(*a => (*a)->Sequence_0)); assert(decreases_to!(*xs => xs@)); assert(decreases_to!(xs@ => xs@[i as int])); }
                if !values_equal(&xs[i], &ys[i]) {
                    proof {
                        lemma_models(xs@);
                        lemma_models(ys@);
                    }
                    assert(models(xs@)[i as int] != models(ys@)[i as int]);
                    return false;
                }
                i += 1;
            }
            assert(models(xs@) =~= models(ys@));
            true
        },
        (Value::Mapping(xs), Value::Mapping(ys)) => {
            proof {
                lemma_entry_models(xs@);
                lemma_entry_models(ys@);
            }
            if xs.len() != ys.len() {
                assert(entry_models(xs@).len() != entry_models(ys@).len());
                return false;
            }
            let mut i: usize = 0;
            while i < xs.len()
                invariant
                    xs.len() == ys.len(),
                    0 <= i <= xs.len(),
                    forall|k: int|
                        0 <= k < i ==> value_model(xs@[k].0) == value_model(ys@[k].0)
                            && value_model(xs@[k].1) == value_model(ys@[k].1),
                    *a == Value::Mapping(*xs),
                    *b == Value::Mapping(*ys),
                decreases xs.len() - i,
            {
                proof { assert(decreases_to!(*a => (*a)->Mapping_0)); assert(decreases_to!(*xs => xs@)); assert(decreases_to!(xs@ => xs@[i as int])); assert(decreases_to!(xs@[i as int] => xs@[i as int].0)); assert(decreases_to!(xs@[i as int] => xs@[i as int].1)); }
                if !values_equal(&xs[i].0, &ys[i].0) || !values_equal(&xs[i].1, &ys[i].1) {
                    proof {
                        lemma_entry_models(xs@);
                        lemma_entry_models(ys@);
                    }
                    assert(entry_models(xs@)[i as int] != entry_models(ys@)[i as int]);
                    return false;
                }
                i += 1;
            }
            assert(entry_models(xs@) =~= entry_models(ys@));
            true
        },
        (Value::Tagged(x), Value::Tagged(y)) => x.tag == y.tag && values_equal(&x.value, &y.value),
        _ => false,
    }
}

impl PartialEq for Value {
    fn eq(&self, other: &Value) -> (r: bool) {
        values_equal(self, other)
    }
}

impl vstd::std_specs::cmp::PartialEqSpecImpl for Value {
    open spec fn obeys_eq_spec() -> bool {
        true
    }

    open spec fn eq_spec(&self, other: &Value) -> bool {
        self@ == other@
    }
}

impl Eq for Value {}

/// A deep copy of a tree.
pub fn copy_value(v: &Value) -> (r: Value)
    ensures
        r@ == v@,
    decreases v,
{
    match v {
        Value::Null => Value::Null,
        Value::Bool(b) => Value::Bool(*b),
        Value::Number(n) => Value::Number(*n),
        Value::String(s) => Value::String(s.clone()),
        Value::Sequence(xs) => {
            let mut out: Vec<Value> = Vec::new();
            let mut i: usize = 0;
            while i < xs.len()
                invariant
                    0 <= i <= xs.len(),
                    out@.len() == i,
                    forall|k: int| 0 <= k < i ==> value_model(#[trigger] out@[k]) == value_model(xs@[k]),
                    *v == Value::Sequence(*xs),
                decreases xs.len() - i,
            {
                proof { assert(decreases_to!(*v => (*v)->Sequence_0)); assert(decreases_to!(*xs => xs@)); assert(decreases_to!(xs@ => xs@[i as int])); }
                out.push(copy_value(&xs[i]));
                i += 1;
            }
            proof {
                lemma_models(out@);
                lemma_models(xs@);
            }
            assert(models(out@) =~= models(xs@));
            Value::Sequence(out)
        },
        Value::Mapping(xs) => {
            let mut out: Vec<(Value, Value)> = Vec::new();
            let mut i: usize = 0;
            while i < xs.len()
                invariant
                    0 <= i <= xs.len(),
                    out@.len() == i,
                    forall|k: int|
                        0 <= k < i ==> value_model(#[trigger] out@[k].0) == value_model(xs@[k].0)
                            && value_model(out@[k].1) == value_model(xs@[k].1),
                    *v == Value::Mapping(*xs),
                decreases xs.len() - i,
            {
                proof { assert(decreases_to!(*v => (*v)->Mapping_0)); assert(decreases_to!(*xs => xs@)); assert(decreases_to!(xs@ => xs@[i as int])); assert(decreases_to!(xs@[i as int] => xs@[i as int].0)); assert(decreases_to!(xs@[i as int] => xs@[i as int].1)); }
                let k = copy_value(&xs[i].0);
                let w = copy_value(&xs[i].1);
                out.push((k, w));
                i += 1;
            }
            proof {
                lemma_entry_models(out@);
                lemma_entry_models(xs@);
            }
            assert(entry_models(out@) =~= entry_models(xs@));
            Value::Mapping(out)
        },
        Value::Tagged(t) => Value::Tagged(
            Box::new(TaggedValue { tag: t.tag.clone(), value: copy_value(&t.value) }),
        ),
    }
}

impl Clone for Value {
    fn clone(&self) -> (r: Value)
        ensures
            r@ == self@,
    {
        copy_value(self)
    }
}

} // verus!
