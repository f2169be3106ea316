//! Setting and deleting the node at a dot-notation path.
use vstd::prelude::*;
use crate::error::{Error, Fault, PathError, PathFault};
use crate::path::{index_in, path_segments, resolve_index, split_path, texts};
use crate::query::{key_index, lemma_key_index, retag, string_key_position, untagged};
use crate::value::{
    entry_models, lemma_entry_models, lemma_entry_models_push, lemma_entry_models_remove,
    lemma_entry_models_update, lemma_models, lemma_models_remove, lemma_models_update, models,
    value_model, well_formed, TaggedValue, Value, Yaml,
};
use crate::wellformed::{lemma_del_in_wf, lemma_set_in_wf};

verus! {

/// The entries with `k` bound to `w`: in place when `k` is a key already,
/// else appended.
pub open spec fn put(es: Seq<(Yaml, Yaml)>, k: Yaml, w: Yaml) -> Seq<(Yaml, Yaml)> {
    let j = key_index(es, k);
    if j < es.len() {
        es.update(j, (es[j].0, w))
    } else {
        es.push((k, w))
    }
}

/// Setting `new` at the end of the segments below `v`, looking through one
/// tag on each node on the way; a tagged node keeps its tag.
pub open spec fn set_in(v: Yaml, segs: Seq<Seq<char>>, new: Yaml, path: Seq<char>) -> Result<Yaml, PathFault>
    decreases segs.len(), 1nat,
{
    match set_at_node(untagged(v), segs, new, path) {
        Ok(r) => Ok(retag(v, r)),
        Err(f) => Err(f),
    }
}

/// Setting `new` at the end of the segments below the untagged node `v`.
/// Missing mapping keys on the way are created as empty mappings; sequences
/// are never extended; a node that is still tagged counts as a scalar.
pub open spec fn set_at_node(v: Yaml, segs: Seq<Seq<char>>, new: Yaml, path: Seq<char>) -> Result<Yaml, PathFault>
    decreases segs.len(), 0nat,
{
    if segs.len() == 0 {
        Ok(new)
    } else {
        let seg = segs[0];
        match v {
            Yaml::Dict(es) => {
                let j = key_index(es, Yaml::Str(seg));
                let child = if j < es.len() {
                    es[j].1
                } else {
                    Yaml::Dict(Seq::empty())
                };
                if segs.len() == 1 {
                    Ok(Yaml::Dict(put(es, Yaml::Str(seg), new)))
                } else {
                    match set_in(child, segs.drop_first(), new, path) {
                        Ok(c) => Ok(Yaml::Dict(put(es, Yaml::Str(seg), c))),
                        Err(f) => Err(f),
                    }
                }
            },
            Yaml::List(xs) => match index_in(seg, xs.len() as int, path) {
                Ok(i) => if segs.len() == 1 {
                    Ok(Yaml::List(xs.update(i, new)))
                } else {
                    match set_in(xs[i], segs.drop_first(), new, path) {
                        Ok(c) => Ok(Yaml::List(xs.update(i, c))),
                        Err(f) => Err(f),
                    }
                },
                Err(f) => Err(f),
            },
            _ => if segs.len() == 1 {
                Err(PathFault::CannotSetOnScalar(path, seg))
            } else {
                Err(PathFault::CannotTraverseScalar(path, seg))
            },
        }
    }
}

/// The tree after setting `new` at `path`; an empty (null) tree is first
/// replaced by an empty mapping.
pub open spec fn set_spec(root: Yaml, path: Seq<char>, new: Yaml) -> Result<Yaml, PathFault> {
    let start = if root == Yaml::Null {
        Yaml::Dict(Seq::empty())
    } else {
        root
    };
    set_in(start, path_segments(path), new, path)
}

/// Deleting the node at the end of the segments below `v`, looking through
/// one tag on each node on the way; a tagged node keeps its tag.
pub open spec fn del_in(v: Yaml, segs: Seq<Seq<char>>, path: Seq<char>) -> Result<Yaml, PathFault>
    decreases segs.len(), 1nat,
{
    match del_at_node(untagged(v), segs, path) {
        Ok(r) => Ok(retag(v, r)),
        Err(f) => Err(f),
    }
}

/// Deleting the node at the end of the segments below the untagged node `v`;
/// a node that is still tagged counts as a scalar.
pub open spec fn del_at_node(v: Yaml, segs: Seq<Seq<char>>, path: Seq<char>) -> Result<Yaml, PathFault>
    decreases segs.len(), 0nat,
{
    if segs.len() == 0 {
        Ok(v)
    } else {
        let seg = segs[0];
        match v {
            Yaml::Dict(es) => {
                let j = key_index(es, Yaml::Str(seg));
                if j >= es.len() {
                    Err(PathFault::MissingKey(path, seg))
                } else if segs.len() == 1 {
                    Ok(Yaml::Dict(es.remove(j)))
                } else {
                    match del_in(es[j].1, segs.drop_first(), path) {
                        Ok(c) => Ok(Yaml::Dict(es.update(j, (es[j].0, c)))),
                        Err(f) => Err(f),
                    }
                }
            },
            Yaml::List(xs) => match index_in(seg, xs.len() as int, path) {
                Ok(i) => if segs.len() == 1 {
                    Ok(Yaml::List(xs.remove(i)))
                } else {
                    match del_in(xs[i], segs.drop_first(), path) {
                        Ok(c) => Ok(Yaml::List(xs.update(i, c))),
                        Err(f) => Err(f),
                    }
                },
                Err(f) => Err(f),
            },
            _ => if segs.len() == 1 {
                Err(PathFault::CannotDeleteFromScalar(path))
            } else {
                Err(PathFault::CannotTraverseScalar(path, seg))
            },
        }
    }
}

/// The tree after deleting the node at `path`. An empty (null) document and
/// an empty path are errors.
pub open spec fn del_spec(root: Yaml, path: Seq<char>) -> Result<Yaml, PathFault> {
    let segs = path_segments(path);
    if root == Yaml::Null {
        Err(PathFault::EmptyDocument)
    } else if segs.len() == 1 && segs[0].len() == 0 {
        Err(PathFault::EmptyPath)
    } else {
        del_in(root, segs, path)
    }
}

/// Whether `r` is the outcome that `expected` describes.
pub open spec fn path_outcome(r: Result<Value, PathError>, expected: Result<Yaml, PathFault>) -> bool {
    match expected {
        Ok(m) => r is Ok && r->Ok_0@ == m,
        Err(f) => r is Err && r->Err_0@ == f,
    }
}

/// A node's tag, if it has one, and the node it tags.
pub(crate) fn split_tag(v: Value) -> (r: (Option<String>, Value))
    ensures
        r.1@ == untagged(v@),
        match v@ {
            Yaml::Tagged(t, _) => r.0 is Some && r.0->Some_0@ == t,
            _ => r.0 is None,
        },
{
    match v {
        Value::Tagged(tv) => {
            let TaggedValue { tag, value } = *tv;
            (Some(tag), value)
        },
        other => (None, other),
    }
}

/// The node put back under the tag, if there is one.
pub(crate) fn retag_value(tag: Option<String>, v: Value) -> (r: Value)
    ensures
        r@ == (match tag {
            Some(t) => Yaml::Tagged(t@, Box::new(v@)),
            None => v@,
        }),
{
    match tag {
        Some(t) => Value::Tagged(Box::new(TaggedValue { tag: t, value: v })),
        None => v,
    }
}

fn set_node(node: Value, segs: &Vec<String>, i: usize, new: Value, path: &str) -> (r: Result<Value, PathError>)
    requires
        i < segs.len(),
    ensures
        path_outcome(r, set_in(node@, texts(segs@).skip(i as int), new@, path@)),
    decreases segs.len() - i, 1nat,
{
    let (tag, inner) = split_tag(node);
    match set_bare(inner, segs, i, new, path) {
        Ok(v) => Ok(retag_value(tag, v)),
        Err(e) => Err(e),
    }
}

fn set_bare(node: Value, segs: &Vec<String>, i: usize, new: Value, path: &str) -> (r: Result<Value, PathError>)
    requires
        i < segs.len(),
    ensures
        path_outcome(r, set_at_node(node@, texts(segs@).skip(i as int), new@, path@)),
    decreases segs.len() - i, 0nat,
{
    let ghost all = texts(segs@);
    proof {
        assert(all.skip(i as int).drop_first() =~= all.skip(i + 1));
        assert(all.skip(i as int)[0] == segs@[i as int]@);
    }
    let seg: &str = segs[i].as_str();
    let last = i + 1 == segs.len();
    match node {
        Value::Mapping(mut es) => {
            proof {
                lemma_entry_models(es@);
                lemma_key_index(entry_models(es@), Yaml::Str(seg@));
            }
            let ghost es0 = es@;
            let j = string_key_position(&es, seg);
            if last {
                if j < es.len() {
                    let (k, _old) = es.remove(j);
                    es.insert(j, (k, new));
                    proof {
                        assert(es@ =~= es0.update(j as int, (k, new)));
                        lemma_entry_models_update(es0, j as int, (k, new));
                    }
                } else {
                    let k = Value::String(segs[i].clone());
                    es.push((k, new));
                    proof {
                        lemma_entry_models_push(es0, (k, new));
                    }
                }
                return Ok(Value::Mapping(es));
            }
            if j < es.len() {
                let (k, child) = es.remove(j);
                match set_node(child, segs, i + 1, new, path) {
                    Ok(c) => {
                        es.insert(j, (k, c));
                        proof {
                            assert(es@ =~= es0.update(j as int, (k, c)));
                            lemma_entry_models_update(es0, j as int, (k, c));
                        }
                        Ok(Value::Mapping(es))
                    },
                    Err(e) => Err(e),
                }
            } else {
                let fresh = Value::Mapping(Vec::new());
                proof {
                    lemma_entry_models(Seq::<(Value, Value)>::empty());
                    assert(fresh@ == Yaml::Dict(Seq::empty()));
                }
                match set_node(fresh, segs, i + 1, new, path) {
                    Ok(c) => {
                        let k = Value::String(segs[i].clone());
                        es.push((k, c));
                        proof {
                            lemma_entry_models_push(es0, (k, c));
                        }
                        Ok(Value::Mapping(es))
                    },
                    Err(e) => Err(e),
                }
            }
        },
        Value::Sequence(mut xs) => {
            proof {
                lemma_models(xs@);
            }
            let ghost xs0 = xs@;
            let idx = match resolve_index(seg, xs.len(), path) {
                Ok(idx) => idx,
                Err(e) => {
                    return Err(e);
                },
            };
            if last {
                let _old = xs.remove(idx);
                xs.insert(idx, new);
                proof {
                    assert(xs@ =~= xs0.update(idx as int, new));
                    lemma_models_update(xs0, idx as int, new);
                }
                return Ok(Value::Sequence(xs));
            }
            let child = xs.remove(idx);
            match set_node(child, segs, i + 1, new, path) {
                Ok(c) => {
                    xs.insert(idx, c);
                    proof {
                        assert(xs@ =~= xs0.update(idx as int, c));
                        lemma_models_update(xs0, idx as int, c);
                    }
                    Ok(Value::Sequence(xs))
                },
                Err(e) => Err(e),
            }
        },
        _ => {
            if last {
                Err(PathError::CannotSetOnScalar { path: String::from_str(path), segment: segs[i].clone() })
            } else {
                Err(
                    PathError::CannotTraverseScalar {
                        path: String::from_str(path),
                        segment: segs[i].clone(),
                    },
                )
            }
        },
    }
}

/// Set `new_value` at the dot-path `key` in `base`. Missing intermediate
/// mapping keys are created; an empty (null) document becomes a mapping first.
pub fn set_value(key: &str, new_value: Value, base: Value) -> (r: Result<Value, Error>)
    ensures
        match set_spec(base@, key@, new_value@) {
            Ok(m) => r is Ok && r->Ok_0@ == m,
            Err(f) => r is Err && r->Err_0@ == Fault::Path(f),
        },
        r is Ok && well_formed(base@) && well_formed(new_value@) ==> well_formed(r->Ok_0@),
{
    proof {
        let start = if base@ == Yaml::Null {
            Yaml::Dict(Seq::empty())
        } else {
            base@
        };
        if well_formed(base@) && well_formed(new_value@) && set_spec(base@, key@, new_value@) is Ok {
            lemma_set_in_wf(start, path_segments(key@), new_value@, key@);
        }
    }
    let start = match base {
        Value::Null => {
            proof {
                lemma_entry_models(Seq::<(Value, Value)>::empty());
            }
            Value::Mapping(Vec::new())
        },
        other => other,
    };
    assert(start@ == (if base@ == Yaml::Null {
        Yaml::Dict(Seq::empty())
    } else {
        base@
    }));
    let segs = split_path(key);
    assert(texts(segs@).skip(0) =~= texts(segs@));
    match set_node(start, &segs, 0, new_value, key) {
        Ok(v) => Ok(v),
        Err(e) => Err(Error::Path(e)),
    }
}

fn del_node(node: Value, segs: &Vec<String>, i: usize, path: &str) -> (r: Result<Value, PathError>)
    requires
        i < segs.len(),
    ensures
        path_outcome(r, del_in(node@, texts(segs@).skip(i as int), path@)),
    decreases segs.len() - i, 1nat,
{
    let (tag, inner) = split_tag(node);
    match del_bare(inner, segs, i, path) {
        Ok(v) => Ok(retag_value(tag, v)),
        Err(e) => Err(e),
    }
}

fn del_bare(node: Value, segs: &Vec<String>, i: usize, path: &str) -> (r: Result<Value, PathError>)
    requires
        i < segs.len(),
    ensures
        path_outcome(r, del_at_node(node@, texts(segs@).skip(i as int), path@)),
    decreases segs.len() - i, 0nat,
{
    let ghost all = texts(segs@);
    proof {
        assert(all.skip(i as int).drop_first() =~= all.skip(i + 1));
        assert(all.skip(i as int)[0] == segs@[i as int]@);
    }
    let seg: &str = segs[i].as_str();
    let last = i + 1 == segs.len();
    match node {
        Value::Mapping(mut es) => {
            proof {
                lemma_entry_models(es@);
                lemma_key_index(entry_models(es@), Yaml::Str(seg@));
            }
            let ghost es0 = es@;
            let j = string_key_position(&es, seg);
            if j >= es.len() {
                return Err(PathError::MissingKey { path: String::from_str(path), key: segs[i].clone() });
            }
            if last {
                let _gone = es.remove(j);
                proof {
                    lemma_entry_models_remove(es0, j as int);
                }
                return Ok(Value::Mapping(es));
            }
            let (k, child) = es.remove(j);
            match del_node(child, segs, i + 1, path) {
                Ok(c) => {
                    es.insert(j, (k, c));
                    proof {
                        assert(es@ =~= es0.update(j as int, (k, c)));
                        lemma_entry_models_update(es0, j as int, (k, c));
                    }
                    Ok(Value::Mapping(es))
                },
                Err(e) => Err(e),
            }
        },
        Value::Sequence(mut xs) => {
            proof {
                lemma_models(xs@);
            }
            let ghost xs0 = xs@;
            let idx = match resolve_index(seg, xs.len(), path) {
                Ok(idx) => idx,
                Err(e) => {
                    return Err(e);
                },
            };
            if last {
                let _gone = xs.remove(idx);
                proof {
                    lemma_models_remove(xs0, idx as int);
                }
                return Ok(Value::Sequence(xs));
            }
            let child = xs.remove(idx);
            match del_node(child, segs, i + 1, path) {
                Ok(c) => {
                    xs.insert(idx, c);
                    proof {
                        assert(xs@ =~= xs0.update(idx as int, c));
                        lemma_models_update(xs0, idx as int, c);
                    }
                    Ok(Value::Sequence(xs))
                },
                Err(e) => Err(e),
            }
        },
        _ => {
            if last {
                Err(PathError::CannotDeleteFromScalar { path: String::from_str(path) })
            } else {
                Err(
                    PathError::CannotTraverseScalar {
                        path: String::from_str(path),
                        segment: segs[i].clone(),
                    },
                )
            }
        },
    }
}

/// Delete the node at the dot-path `key` in `base`: a mapping entry (the
/// others keep their order) or a sequence element (the later ones shift).
pub fn del(key: &str, base: Value) -> (r: Result<Value, Error>)
    ensures
        match del_spec(base@, key@) {
            Ok(m) => r is Ok && r->Ok_0@ == m,
            Err(f) => r is Err && r->Err_0@ == Fault::Path(f),
        },
        r is Ok && well_formed(base@) ==> well_formed(r->Ok_0@),
{
    proof {
        if well_formed(base@) && del_spec(base@, key@) is Ok {
            lemma_del_in_wf(base@, path_segments(key@), key@);
        }
    }
    if let Value::Null = base {
        return Err(Error::Path(PathError::EmptyDocument));
    }
    let segs = split_path(key);
    if segs.len() == 1 && segs[0].unicode_len() == 0 {
        return Err(Error::Path(PathError::EmptyPath));
    }
    assert(texts(segs@).skip(0) =~= texts(segs@));
    assert(texts(segs@)[0] == segs@[0]@);
    match del_node(base, &segs, 0, key) {
        Ok(v) => Ok(v),
        Err(e) => Err(Error::Path(e)),
    }
}

} // verus!
