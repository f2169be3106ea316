//! Reading a tree along a dot-notation path.
use vstd::prelude::*;
use crate::error::{Error, Fault, Operation, PathError, PathFault, TypeError, TypeFault};
use crate::path::{index_in, path_segments, resolve_index, split_path, texts};
use crate::text::same_text;
use crate::value::{
    copy_value, entry_models, lemma_entry_models, lemma_models, models, value_model, Number,
    Value, Yaml,
};

verus! {

/// The position of the first entry whose key is `k`, or the number of
/// entries when there is none.
pub open spec fn key_index(es: Seq<(Yaml, Yaml)>, k: Yaml) -> int
    decreases es.len(),
{
    if es.len() == 0 {
        0
    } else if es[0].0 == k {
        0
    } else {
        1 + key_index(es.drop_first(), k)
    }
}

pub proof fn lemma_key_index(es: Seq<(Yaml, Yaml)>, k: Yaml)
    ensures
        0 <= key_index(es, k) <= es.len(),
        key_index(es, k) < es.len() ==> es[key_index(es, k)].0 == k,
        forall|j: int| 0 <= j < key_index(es, k) ==> es[j].0 != k,
    decreases es.len(),
{
    if es.len() > 0 && es[0].0 != k {
        lemma_key_index(es.drop_first(), k);
        assert forall|j: int| 0 <= j < key_index(es, k) implies es[j].0 != k by {
            if j > 0 {
                assert(es[j] == es.drop_first()[j - 1]);
            }
        }
    }
}

/// The entry that a segment names in a mapping: the string key equal to it,
/// or, for an empty segment with no such key, the null key.
pub open spec fn segment_entry(es: Seq<(Yaml, Yaml)>, seg: Seq<char>) -> int {
    let i = key_index(es, Yaml::Str(seg));
    if i < es.len() || seg.len() > 0 {
        i
    } else {
        key_index(es, Yaml::Null)
    }
}

/// A tree seen through one tag: the tagged node for a tagged value.
pub open spec fn untagged(v: Yaml) -> Yaml {
    match v {
        Yaml::Tagged(_, inner) => *inner,
        _ => v,
    }
}

/// `r` under the tag of `v`, if `v` is tagged.
pub open spec fn retag(v: Yaml, r: Yaml) -> Yaml {
    match v {
        Yaml::Tagged(t, _) => Yaml::Tagged(t, Box::new(r)),
        _ => r,
    }
}

/// One step down from a container along a segment.
pub open spec fn step_in(node: Yaml, seg: Seq<char>, path: Seq<char>) -> Result<Yaml, PathFault> {
    match node {
        Yaml::Dict(es) => {
            let j = segment_entry(es, seg);
            if 0 <= j < es.len() {
                Ok(es[j].1)
            } else {
                Err(PathFault::MissingKey(path, seg))
            }
        },
        Yaml::List(xs) => match index_in(seg, xs.len() as int, path) {
            Ok(i) => Ok(xs[i]),
            Err(f) => Err(f),
        },
        _ => Err(PathFault::CannotTraverseScalar(path, seg)),
    }
}

/// The node that the segments lead to from `v`.
pub open spec fn get_in(v: Yaml, segs: Seq<Seq<char>>, path: Seq<char>) -> Result<Yaml, PathFault>
    decreases segs.len(),
{
    if segs.len() == 0 {
        Ok(v)
    } else {
        match step_in(untagged(v), segs[0], path) {
            Ok(c) => get_in(c, segs.drop_first(), path),
            Err(f) => Err(f),
        }
    }
}

/// The node at an optional path: the whole tree when there is none.
pub open spec fn get_at(v: Yaml, path: Option<Seq<char>>) -> Result<Yaml, PathFault> {
    match path {
        None => Ok(v),
        Some(p) => get_in(v, path_segments(p), p),
    }
}

pub open spec fn opt_view(path: Option<&str>) -> Option<Seq<char>> {
    match path {
        Some(p) => Some(p@),
        None => None,
    }
}

/// Position of the entry whose key is the string `seg`.
pub(crate) fn string_key_position(es: &Vec<(Value, Value)>, seg: &str) -> (r: usize)
    ensures
        r as int == key_index(entry_models(es@), Yaml::Str(seg@)),
{
    proof {
        lemma_entry_models(es@);
        lemma_key_index(entry_models(es@), Yaml::Str(seg@));
    }
    let mut i: usize = 0;
    while i < es.len()
        invariant
            0 <= i <= es.len(),
            entry_models(es@).len() == es@.len(),
            forall|j: int| 0 <= j < es@.len() ==> #[trigger] entry_models(es@)[j] == (value_model(es@[j].0), value_model(es@[j].1)),
            forall|j: int| 0 <= j < i ==> entry_models(es@)[j].0 != Yaml::Str(seg@),
            0 <= key_index(entry_models(es@), Yaml::Str(seg@)) <= es@.len(),
            key_index(entry_models(es@), Yaml::Str(seg@)) < es@.len() ==> entry_models(es@)[key_index(entry_models(es@), Yaml::Str(seg@))].0 == Yaml::Str(seg@),
            forall|j: int| 0 <= j < key_index(entry_models(es@), Yaml::Str(seg@)) ==> entry_models(es@)[j].0 != Yaml::Str(seg@),
        decreases es.len() - i,
    {
        let hit = match &es[i].0 {
            Value::String(s) => same_text(s.as_str(), seg),
            _ => false,
        };
        assert(hit == (entry_models(es@)[i as int].0 == Yaml::Str(seg@)));
        if hit {
            return i;
        }
        i += 1;
    }
    i
}

/// Position of the entry whose key is null.
fn null_key_position(es: &Vec<(Value, Value)>) -> (r: usize)
    ensures
        r as int == key_index(entry_models(es@), Yaml::Null),
{
    proof {
        lemma_entry_models(es@);
        lemma_key_index(entry_models(es@), Yaml::Null);
    }
    let mut i: usize = 0;
    while i < es.len()
        invariant
            0 <= i <= es.len(),
            entry_models(es@).len() == es@.len(),
            forall|j: int| 0 <= j < es@.len() ==> #[trigger] entry_models(es@)[j] == (value_model(es@[j].0), value_model(es@[j].1)),
            forall|j: int| 0 <= j < i ==> entry_models(es@)[j].0 != Yaml::Null,
            0 <= key_index(entry_models(es@), Yaml::Null) <= es@.len(),
            key_index(entry_models(es@), Yaml::Null) < es@.len() ==> entry_models(es@)[key_index(entry_models(es@), Yaml::Null)].0 == Yaml::Null,
            forall|j: int| 0 <= j < key_index(entry_models(es@), Yaml::Null) ==> entry_models(es@)[j].0 != Yaml::Null,
        decreases es.len() - i,
    {
        let hit = match &es[i].0 {
            Value::Null => true,
            _ => false,
        };
        assert(hit == (entry_models(es@)[i as int].0 == Yaml::Null));
        if hit {
            return i;
        }
        i += 1;
    }
    i
}

/// The value of the entry that `part` names in a mapping.
fn lookup_in_map<'a>(map: &'a Vec<(Value, Value)>, part: &str, path: &str) -> (r: Result<&'a Value, PathError>)
    ensures
        match step_in(Yaml::Dict(entry_models(map@)), part@, path@) {
            Ok(c) => r is Ok && r->Ok_0@ == c,
            Err(f) => r is Err && r->Err_0@ == f,
        },
{
    proof {
        lemma_entry_models(map@);
    }
    let i = string_key_position(map, part);
    if i < map.len() {
        return Ok(&map[i].1);
    }
    if part.unicode_len() == 0 {
        let j = null_key_position(map);
        if j < map.len() {
            return Ok(&map[j].1);
        }
    }
    Err(PathError::MissingKey { path: String::from_str(path), key: String::from_str(part) })
}

/// Navigate to the node at a path; with no path, the whole tree.
pub fn get_at_path<'a>(value: &'a Value, path: Option<&str>) -> (r: Result<&'a Value, PathError>)
    ensures
        match get_at(value@, opt_view(path)) {
            Ok(c) => r is Ok && r->Ok_0@ == c,
            Err(f) => r is Err && r->Err_0@ == f,
        },
{
    let p = match path {
        None => {
            return Ok(value);
        },
        Some(p) => p,
    };
    let parts = split_path(p);
    let ghost segs = texts(parts@);
    let mut current: &Value = value;
    let mut i: usize = 0;
    assert(segs.skip(0) =~= segs);
    while i < parts.len()
        invariant
            0 <= i <= parts.len(),
            segs == texts(parts@),
            segs == path_segments(p@),
            opt_view(path) == Some(p@),
            get_in(current@, segs.skip(i as int), p@) == get_in(value@, segs, p@),
        decreases parts.len() - i,
    {
        assert(segs.skip(i as int).drop_first() =~= segs.skip(i + 1));
        assert(segs.skip(i as int)[0] == parts@[i as int]@);
        let inner: &Value = match current {
            Value::Tagged(t) => &t.value,
            other => other,
        };
        assert(inner@ == untagged(current@));
        let next: &Value = match inner {
            Value::Mapping(es) => match lookup_in_map(es, parts[i].as_str(), p) {
                Ok(v) => v,
                Err(e) => {
                    return Err(e);
                },
            },
            Value::Sequence(xs) => {
                proof {
                    lemma_models(xs@);
                }
                match resolve_index(parts[i].as_str(), xs.len(), p) {
                    Ok(idx) => &xs[idx],
                    Err(e) => {
                        return Err(e);
                    },
                }
            },
            _ => {
                return Err(
                    PathError::CannotTraverseScalar {
                        path: String::from_str(p),
                        segment: parts[i].clone(),
                    },
                );
            },
        };
        current = next;
        i += 1;
    }
    assert(segs.skip(i as int) =~= Seq::<Seq<char>>::empty());
    Ok(current)
}

/// Whether `r` is the outcome that `expected` describes.
pub open spec fn outcome(r: Result<Value, Error>, expected: Result<Yaml, Fault>) -> bool {
    match expected {
        Ok(m) => r is Ok && r->Ok_0@ == m,
        Err(f) => r is Err && r->Err_0@ == f,
    }
}

/// The type name that queries report for a node.
pub open spec fn kind_label(v: Yaml) -> Seq<char> {
    match v {
        Yaml::Null => "NoneType"@,
        Yaml::Bool(_) => "bool"@,
        Yaml::Int(_) => "int"@,
        Yaml::Float(_) => "float"@,
        Yaml::Str(_) => "str"@,
        Yaml::List(_) => "sequence"@,
        Yaml::Dict(_) => "struct"@,
        Yaml::Tagged(_, inner) => match *inner {
            Yaml::List(_) => "sequence"@,
            Yaml::Dict(_) => "struct"@,
            _ => "str"@,
        },
    }
}

/// The type name of a node: `NoneType`, `bool`, `int`, `float`, `str`,
/// `sequence` or `struct`.
pub fn value_to_type_name(value: &Value) -> (r: String)
    ensures
        r@ == kind_label(value@),
{
    let name = match value {
        Value::Null => "NoneType",
        Value::Bool(_) => "bool",
        Value::Number(Number::Float(_)) => "float",
        Value::Number(_) => "int",
        Value::String(_) => "str",
        Value::Sequence(_) => "sequence",
        Value::Mapping(_) => "struct",
        Value::Tagged(t) => match &t.value {
            Value::Sequence(_) => "sequence",
            Value::Mapping(_) => "struct",
            _ => "str",
        },
    };
    proof {
        reveal_with_fuel(value_model, 2);
    }
    String::from_str(name)
}

/// The node itself, or for a tagged node the node it tags.
pub fn untag(v: &Value) -> (r: &Value)
    ensures
        r@ == untagged(v@),
{
    match v {
        Value::Tagged(t) => &t.value,
        other => other,
    }
}

/// A query's answer on the node it reached, or the path error.
pub open spec fn on_target(v: Yaml, path: Option<Seq<char>>, f: spec_fn(Yaml) -> Result<Yaml, Fault>) -> Result<Yaml, Fault> {
    match get_at(v, path) {
        Ok(t) => f(t),
        Err(e) => Err(Fault::Path(e)),
    }
}

pub open spec fn unsupported(op: Operation, t: Yaml) -> Result<Yaml, Fault> {
    Err(Fault::Type(TypeFault::Unsupported(op, kind_label(t))))
}

/// The keys of mapping entries, in order.
pub open spec fn keys_of(es: Seq<(Yaml, Yaml)>) -> Seq<Yaml> {
    Seq::new(es.len(), |i: int| es[i].0)
}

/// The values of mapping entries, in order.
pub open spec fn values_of(es: Seq<(Yaml, Yaml)>) -> Seq<Yaml> {
    Seq::new(es.len(), |i: int| es[i].1)
}

/// Keys and values of mapping entries, alternating: `k0, v0, k1, v1, ...`.
pub open spec fn pairs_of(es: Seq<(Yaml, Yaml)>) -> Seq<Yaml> {
    Seq::new(2 * es.len(), |i: int| if i % 2 == 0 { es[i / 2].0 } else { es[i / 2].1 })
}

pub open spec fn length_answer(t: Yaml) -> Result<Yaml, Fault> {
    match untagged(t) {
        Yaml::List(xs) => Ok(Yaml::Int(xs.len() as int)),
        Yaml::Dict(es) => Ok(Yaml::Int(es.len() as int)),
        _ => unsupported(Operation::GetLength, t),
    }
}

pub open spec fn keys_answer(t: Yaml) -> Result<Yaml, Fault> {
    match untagged(t) {
        Yaml::Dict(es) => Ok(Yaml::List(keys_of(es))),
        _ => unsupported(Operation::Keys, t),
    }
}

pub open spec fn values_answer(t: Yaml) -> Result<Yaml, Fault> {
    match untagged(t) {
        Yaml::Dict(es) => Ok(Yaml::List(values_of(es))),
        _ => unsupported(Operation::Values, t),
    }
}

pub open spec fn key_values_answer(t: Yaml) -> Result<Yaml, Fault> {
    match untagged(t) {
        Yaml::Dict(es) => Ok(Yaml::List(pairs_of(es))),
        _ => unsupported(Operation::KeyValues, t),
    }
}

pub open spec fn get_values_answer(t: Yaml) -> Result<Yaml, Fault> {
    match untagged(t) {
        Yaml::List(xs) => Ok(Yaml::List(xs)),
        Yaml::Dict(es) => Ok(Yaml::List(pairs_of(es))),
        _ => unsupported(Operation::GetValues, t),
    }
}

pub open spec fn type_answer(t: Yaml) -> Result<Yaml, Fault> {
    match t {
        Yaml::Tagged(tag, _) => Ok(Yaml::Str(tag)),
        _ => Ok(Yaml::Str(kind_label(t))),
    }
}

fn target_of<'a>(value: &'a Value, path: Option<&str>) -> (r: Result<&'a Value, Error>)
    ensures
        match get_at(value@, opt_view(path)) {
            Ok(c) => r is Ok && r->Ok_0@ == c,
            Err(f) => r is Err && r->Err_0@ == Fault::Path(f),
        },
{
    match get_at_path(value, path) {
        Ok(t) => Ok(t),
        Err(e) => Err(Error::Path(e)),
    }
}

fn unsupported_error(op: Operation, target: &Value) -> (r: Error)
    ensures
        r@ == Fault::Type(TypeFault::Unsupported(op, kind_label(target@))),
{
    Error::Type(TypeError::Unsupported { operation: op, found: value_to_type_name(target) })
}

/// A copy of the keys (`part == 0`), the values (`part == 1`) or both,
/// alternating (`part == 2`), of mapping entries.
fn collect_entries(es: &Vec<(Value, Value)>, part: u8) -> (r: Vec<Value>)
    requires
        part <= 2,
    ensures
        part == 0 ==> models(r@) == keys_of(entry_models(es@)),
        part == 1 ==> models(r@) == values_of(entry_models(es@)),
        part == 2 ==> models(r@) == pairs_of(entry_models(es@)),
{
    proof {
        lemma_entry_models(es@);
    }
    let ghost m = entry_models(es@);
    let ghost want = if part == 0 {
        keys_of(m)
    } else if part == 1 {
        values_of(m)
    } else {
        pairs_of(m)
    };
    let mut out: Vec<Value> = Vec::new();
    let mut i: usize = 0;
    while i < es.len()
        invariant
            0 <= i <= es.len(),
            part <= 2,
            m == entry_models(es@),
            m.len() == es@.len(),
            forall|j: int| 0 <= j < es@.len() ==> #[trigger] m[j] == (value_model(es@[j].0), value_model(es@[j].1)),
            want == (if part == 0 {
                keys_of(m)
            } else if part == 1 {
                values_of(m)
            } else {
                pairs_of(m)
            }),
            out@.len() == (if part == 2 { 2 * i } else { i as int }),
            forall|k: int| 0 <= k < out@.len() ==> value_model(#[trigger] out@[k]) == want[k],
        decreases es.len() - i,
    {
        if part == 0 {
            out.push(copy_value(&es[i].0));
        } else if part == 1 {
            out.push(copy_value(&es[i].1));
        } else {
            out.push(copy_value(&es[i].0));
            out.push(copy_value(&es[i].1));
            assert((2 * i) / 2 == i as int && (2 * i + 1) / 2 == i as int && (2 * i) % 2 == 0 && (2 * i + 1) % 2 == 1) by (nonlinear_arith);
        }
        i += 1;
    }
    proof {
        lemma_models(out@);
        assert(models(out@) =~= want);
    }
    out
}

/// A copy of the node at a path (the whole tree with no path).
pub fn get_value(path: Option<&str>, value: &Value) -> (r: Result<Value, Error>)
    ensures
        outcome(r, on_target(value@, opt_view(path), |t: Yaml| Ok::<Yaml, Fault>(t))),
{
    let t = target_of(value, path)?;
    Ok(copy_value(t))
}

/// The type of the node at a path: its tag when it has one, else its type name.
pub fn get_type(path: Option<&str>, value: &Value) -> (r: Result<Value, Error>)
    ensures
        outcome(r, on_target(value@, opt_view(path), |t: Yaml| type_answer(t))),
{
    let t = target_of(value, path)?;
    match t {
        Value::Tagged(tv) => Ok(Value::String(tv.tag.clone())),
        _ => Ok(Value::String(value_to_type_name(t))),
    }
}

/// The number of items of the sequence or mapping at a path.
pub fn get_length(path: Option<&str>, value: &Value) -> (r: Result<Value, Error>)
    ensures
        outcome(r, on_target(value@, opt_view(path), |t: Yaml| length_answer(t))),
{
    let t = target_of(value, path)?;
    match untag(t) {
        Value::Sequence(xs) => {
            proof {
                lemma_models(xs@);
            }
            Ok(Value::Number(Number::UInt(xs.len() as u64)))
        },
        Value::Mapping(es) => {
            proof {
                lemma_entry_models(es@);
            }
            Ok(Value::Number(Number::UInt(es.len() as u64)))
        },
        _ => Err(unsupported_error(Operation::GetLength, t)),
    }
}

/// The keys of the mapping at a path, as a sequence.
pub fn keys(path: Option<&str>, value: &Value) -> (r: Result<Value, Error>)
    ensures
        outcome(r, on_target(value@, opt_view(path), |t: Yaml| keys_answer(t))),
{
    let t = target_of(value, path)?;
    match untag(t) {
        Value::Mapping(es) => Ok(Value::Sequence(collect_entries(es, 0))),
        _ => Err(unsupported_error(Operation::Keys, t)),
    }
}

/// The values of the mapping at a path, as a sequence.
pub fn values(path: Option<&str>, value: &Value) -> (r: Result<Value, Error>)
    ensures
        outcome(r, on_target(value@, opt_view(path), |t: Yaml| values_answer(t))),
{
    let t = target_of(value, path)?;
    match untag(t) {
        Value::Mapping(es) => Ok(Value::Sequence(collect_entries(es, 1))),
        _ => Err(unsupported_error(Operation::Values, t)),
    }
}

/// Keys and values of the mapping at a path, alternating, as a sequence.
pub fn key_values(path: Option<&str>, value: &Value) -> (r: Result<Value, Error>)
    ensures
        outcome(r, on_target(value@, opt_view(path), |t: Yaml| key_values_answer(t))),
{
    let t = target_of(value, path)?;
    match untag(t) {
        Value::Mapping(es) => Ok(Value::Sequence(collect_entries(es, 2))),
        _ => Err(unsupported_error(Operation::KeyValues, t)),
    }
}

/// The items of the sequence at a path, or the keys and values of the
/// mapping there, alternating.
pub fn get_values(path: Option<&str>, value: &Value) -> (r: Result<Value, Error>)
    ensures
        outcome(r, on_target(value@, opt_view(path), |t: Yaml| get_values_answer(t))),
{
    let t = target_of(value, path)?;
    match untag(t) {
        Value::Sequence(xs) => {
            let mut out: Vec<Value> = Vec::new();
            let mut i: usize = 0;
            while i < xs.len()
                invariant
                    0 <= i <= xs.len(),
                    out@.len() == i,
                    forall|k: int| 0 <= k < i ==> value_model(#[trigger] out@[k]) == value_model(xs@[k]),
                decreases xs.len() - i,
            {
                out.push(copy_value(&xs[i]));
                i += 1;
            }
            proof {
                lemma_models(out@);
                lemma_models(xs@);
                assert(models(out@) =~= models(xs@));
            }
            Ok(Value::Sequence(out))
        },
        Value::Mapping(es) => Ok(Value::Sequence(collect_entries(es, 2))),
        _ => Err(unsupported_error(Operation::GetValues, t)),
    }
}

} // verus!
