//! Overlay merging. The policy at each path comes from the command-line
//! table first, then from a merge directive in the overlay node's tag, and
//! otherwise from the shapes of the two nodes.
use vstd::prelude::*;
use crate::error::{Error, Fault, TypeError, TypeFault};
use crate::mutation::{put, retag_value, split_tag};
use crate::policy::{policy_at, MergePolicy, PolicyTable};
use crate::query::{key_index, lemma_key_index, outcome, retag, untag, untagged};
use crate::tag::{parse_tag, tag_outcome, tag_parse, MergeOp, TagFault};
use crate::text::{decimal_string, decimal_text, trimmed};
use crate::value::{
    entry_models, lemma_entry_models, lemma_entry_models_push, lemma_entry_models_remove,
    lemma_entry_models_update, lemma_models, lemma_models_push, lemma_models_remove, models,
    value_model, values_equal, well_formed, Number, TaggedValue, Value, Yaml,
};
use crate::wellformed::{items_wf, lemma_apply_wf, lemma_merge_wf};

verus! {

/// The shape name that merge errors report.
pub open spec fn shape_name(v: Yaml) -> Seq<char> {
    match v {
        Yaml::Null => "null"@,
        Yaml::Bool(_) => "bool"@,
        Yaml::Int(_) => "number"@,
        Yaml::Float(_) => "number"@,
        Yaml::Str(_) => "string"@,
        Yaml::List(_) => "sequence"@,
        Yaml::Dict(_) => "mapping"@,
        Yaml::Tagged(_, _) => "tagged"@,
    }
}

/// A node's merge directive and the node without it. Other parts of the tag
/// stay on the node; a tag that was only the directive goes.
pub open spec fn extract_directive(v: Yaml) -> Result<(Option<MergeOp>, Yaml), Fault> {
    match v {
        Yaml::Tagged(tag, inner) => match tag_parse(trimmed(tag)) {
            Err(e) => Err(Fault::Tag(e)),
            Ok((rem, op)) => Ok(
                (
                    op,
                    match rem {
                        Some(r) => Yaml::Tagged(r, inner),
                        None => *inner,
                    },
                ),
            ),
        },
        _ => Ok((None, v)),
    }
}

pub open spec fn is_scalar(v: Yaml) -> bool {
    v is Bool || v is Int || v is Float || v is Str
}

/// The position of the first item equal to `e`, or the length when none is.
pub open spec fn first_index(s: Seq<Yaml>, e: Yaml) -> int
    decreases s.len(),
{
    if s.len() == 0 {
        0
    } else if s[0] == e {
        0
    } else {
        1 + first_index(s.drop_first(), e)
    }
}

pub proof fn lemma_first_index(s: Seq<Yaml>, e: Yaml)
    ensures
        0 <= first_index(s, e) <= s.len(),
        first_index(s, e) < s.len() ==> s[first_index(s, e)] == e,
        forall|j: int| 0 <= j < first_index(s, e) ==> s[j] != e,
    decreases s.len(),
{
    if s.len() > 0 && s[0] != e {
        lemma_first_index(s.drop_first(), e);
        assert forall|j: int| 0 <= j < first_index(s, e) implies s[j] != e by {
            if j > 0 {
                assert(s[j] == s.drop_first()[j - 1]);
            }
        }
    }
}

/// `e` appended at the end, after taking out an earlier equal item.
pub open spec fn move_to_end(acc: Seq<Yaml>, e: Yaml) -> Seq<Yaml> {
    let j = first_index(acc, e);
    (if j < acc.len() {
        acc.remove(j)
    } else {
        acc
    }).push(e)
}

/// Sequence merge: each overlay item in turn moves to (or joins) the end.
pub open spec fn append_items(acc: Seq<Yaml>, items: Seq<Yaml>) -> Seq<Yaml>
    decreases items.len(),
{
    if items.len() == 0 {
        acc
    } else {
        append_items(move_to_end(acc, items[0]), items.drop_first())
    }
}

/// The base items that no overlay item equals, in order; repeats among the
/// base items are all kept.
pub open spec fn kept_base(oxs: Seq<Yaml>, bxs: Seq<Yaml>) -> Seq<Yaml>
    decreases bxs.len(),
{
    if bxs.len() == 0 {
        Seq::empty()
    } else {
        (if oxs.contains(bxs[0]) {
            Seq::empty()
        } else {
            seq![bxs[0]]
        }) + kept_base(oxs, bxs.drop_first())
    }
}

/// Prepend merge: the overlay items, then each base item that no overlay
/// item equals.
pub open spec fn prepend_items(oxs: Seq<Yaml>, bxs: Seq<Yaml>) -> Seq<Yaml> {
    oxs + kept_base(oxs, bxs)
}

/// The result of the prepend policy. Both sides are looked at through one
/// tag; the overlay's tag stays. When either is not a sequence the overlay wins.
pub open spec fn prepend_result(base: Yaml, overlay: Yaml) -> Yaml {
    match (untagged(base), untagged(overlay)) {
        (Yaml::List(bxs), Yaml::List(oxs)) => {
            let items = prepend_items(oxs, bxs);
            match overlay {
                Yaml::Tagged(t, _) => Yaml::Tagged(t, Box::new(Yaml::List(items))),
                _ => Yaml::List(items),
            }
        },
        _ => overlay,
    }
}

/// How a mapping key stands in a dot-path: a string as itself; a null, a
/// boolean or an integer in the debug form of the parsed value (`Null`,
/// `Bool(true)`, `Number(UInt(5))` for a non-negative integer as the parser
/// makes it, `Number(Int(-5))`). A float or a composite key stands as its
/// shape name, since its debug form needs float and string formatting.
pub open spec fn key_label(k: Yaml) -> Seq<char> {
    match k {
        Yaml::Str(s) => s,
        Yaml::Int(i) => if i >= 0 {
            "Number(UInt("@ + decimal_text(i) + "))"@
        } else {
            "Number(Int("@ + decimal_text(i) + "))"@
        },
        Yaml::Bool(b) => if b {
            "Bool(true)"@
        } else {
            "Bool(false)"@
        },
        Yaml::Null => "Null"@,
        _ => shape_name(k),
    }
}

/// The dot-path of the entry under `k` below `path`.
pub open spec fn child_path(path: Seq<char>, k: Yaml) -> Seq<char> {
    if path.len() == 0 {
        key_label(k)
    } else {
        path + "."@ + key_label(k)
    }
}

/// The entries without the one under `k`, the others in order.
pub open spec fn remove_key(es: Seq<(Yaml, Yaml)>, k: Yaml) -> Seq<(Yaml, Yaml)> {
    let j = key_index(es, k);
    if j < es.len() {
        es.remove(j)
    } else {
        es
    }
}

pub open spec fn policy_of(op: MergeOp) -> MergePolicy {
    match op {
        MergeOp::Replace => MergePolicy::Replace,
        MergeOp::Append => MergePolicy::Merge,
        MergeOp::Prepend => MergePolicy::Prepend,
    }
}

/// The structural merge of two nodes, each looked at through one tag.
/// `sub` is the merge of their entries, used when both are mappings. A
/// merged mapping or sequence carries the overlay's tag, if it has one.
pub open spec fn default_merge(base: Yaml, overlay: Yaml, path: Seq<char>, sub: Result<Seq<(Yaml, Yaml)>, Fault>) -> Result<Yaml, Fault> {
    let b = untagged(base);
    let o = untagged(overlay);
    if b is Null && o is Null {
        Ok(overlay)
    } else if o is Null {
        Ok(base)
    } else if b is Null {
        Ok(overlay)
    } else {
        match (b, o) {
            (Yaml::Dict(_), Yaml::Dict(_)) => match sub {
                Ok(es) => Ok(retag(overlay, Yaml::Dict(es))),
                Err(f) => Err(f),
            },
            (Yaml::List(bxs), Yaml::List(oxs)) => Ok(retag(overlay, Yaml::List(append_items(bxs, oxs)))),
            _ => if is_scalar(b) && is_scalar(o) {
                Ok(overlay)
            } else {
                Err(Fault::Type(TypeFault::Mismatch(path, shape_name(b), shape_name(o))))
            },
        }
    }
}

/// The result under one policy.
pub open spec fn by_policy(p: MergePolicy, base: Yaml, overlay: Yaml, path: Seq<char>, sub: Result<Seq<(Yaml, Yaml)>, Fault>) -> Result<Yaml, Fault> {
    match p {
        MergePolicy::Replace => Ok(overlay),
        MergePolicy::Prepend => Ok(prepend_result(base, overlay)),
        MergePolicy::Merge => default_merge(base, overlay, path, sub),
    }
}

/// Choosing the policy: the table's entry for the path, else the tag's
/// directive (`append` and `prepend` only on sequences), else the default.
pub open spec fn settle(
    op: Option<MergeOp>,
    cli: Option<MergePolicy>,
    base: Yaml,
    overlay: Yaml,
    path: Seq<char>,
    sub: Result<Seq<(Yaml, Yaml)>, Fault>,
) -> Result<Yaml, Fault> {
    match cli {
        Some(p) => by_policy(p, base, overlay, path, sub),
        None => match op {
            Some(o) => if o != MergeOp::Replace && !(untagged(overlay) is List) {
                Err(Fault::Type(TypeFault::DirectiveShape(path, o, shape_name(untagged(overlay)))))
            } else {
                by_policy(policy_of(o), base, overlay, path, sub)
            },
            None => default_merge(base, overlay, path, sub),
        },
    }
}

/// The merge of `overlay` onto `base` at `path` (counted from the merge root).
pub open spec fn merge_spec(base: Yaml, overlay: Yaml, path: Seq<char>, t: Seq<(Seq<char>, MergePolicy)>) -> Result<Yaml, Fault>
    decreases overlay,
{
    match extract_directive(overlay) {
        Err(f) => Err(f),
        Ok((op, stripped)) => {
            let sub = match (untagged(base), untagged(stripped)) {
                (Yaml::Dict(bes), Yaml::Dict(oes)) => merge_entries(bes, oes, path, t),
                _ => Ok(Seq::empty()),
            };
            settle(op, policy_at(t, path), base, stripped, path, sub)
        },
    }
}

/// Mapping merge: the overlay entries in order, onto the base entries. A
/// null overlay value deletes the key; a key present on both sides merges
/// recursively in place; a new key is appended, its merge directive taken off.
pub open spec fn merge_entries(acc: Seq<(Yaml, Yaml)>, oes: Seq<(Yaml, Yaml)>, path: Seq<char>, t: Seq<(Seq<char>, MergePolicy)>) -> Result<Seq<(Yaml, Yaml)>, Fault>
    decreases oes,
{
    if oes.len() == 0 {
        Ok(acc)
    } else {
        let k = oes[0].0;
        let v = oes[0].1;
        if untagged(v) is Null {
            merge_entries(remove_key(acc, k), oes.drop_first(), path, t)
        } else {
            let j = key_index(acc, k);
            let merged = if j < acc.len() {
                merge_spec(acc[j].1, v, child_path(path, k), t)
            } else {
                match extract_directive(v) {
                    Ok((_, s)) => Ok(s),
                    Err(f) => Err(f),
                }
            };
            match merged {
                Err(f) => Err(f),
                Ok(m) => merge_entries(put(acc, k, m), oes.drop_first(), path, t),
            }
        }
    }
}

/// The shape name of a node, as merge errors report it.
pub fn value_type_name(v: &Value) -> (r: String)
    ensures
        r@ == shape_name(v@),
{
    let name = match v {
        Value::Null => "null",
        Value::Bool(_) => "bool",
        Value::Number(_) => "number",
        Value::String(_) => "string",
        Value::Sequence(_) => "sequence",
        Value::Mapping(_) => "mapping",
        Value::Tagged(_) => "tagged",
    };
    String::from_str(name)
}

/// Take the merge directive off a node's tag.
fn extract_merge_directive(value: Value) -> (r: Result<(Option<MergeOp>, Value), Error>)
    ensures
        match extract_directive(value@) {
            Ok((op, s)) => r is Ok && r->Ok_0.0 == op && r->Ok_0.1@ == s,
            Err(f) => r is Err && r->Err_0@ == f,
        },
{
    match value {
        Value::Tagged(tv) => {
            let TaggedValue { tag, value: inner } = *tv;
            match parse_tag(tag.as_str()) {
                Err(e) => Err(Error::Tag(e)),
                Ok(parsed) => {
                    let stripped = match parsed.remaining {
                        Some(rest) => Value::Tagged(Box::new(TaggedValue { tag: rest, value: inner })),
                        None => inner,
                    };
                    Ok((parsed.merge_op, stripped))
                },
            }
        },
        other => Ok((None, other)),
    }
}

/// Position of the entry whose key equals `k`.
fn key_position(es: &Vec<(Value, Value)>, k: &Value) -> (r: usize)
    ensures
        r as int == key_index(entry_models(es@), k@),
{
    proof {
        lemma_entry_models(es@);
        lemma_key_index(entry_models(es@), k@);
    }
    let mut i: usize = 0;
    while i < es.len()
        invariant
            0 <= i <= es.len(),
            entry_models(es@).len() == es@.len(),
            forall|j: int| 0 <= j < es@.len() ==> #[trigger] entry_models(es@)[j] == (value_model(es@[j].0), value_model(es@[j].1)),
            forall|j: int| 0 <= j < i ==> entry_models(es@)[j].0 != k@,
            0 <= key_index(entry_models(es@), k@) <= es@.len(),
            key_index(entry_models(es@), k@) < es@.len() ==> entry_models(es@)[key_index(entry_models(es@), k@)].0 == k@,
            forall|j: int| 0 <= j < key_index(entry_models(es@), k@) ==> entry_models(es@)[j].0 != k@,
        decreases es.len() - i,
    {
        if values_equal(&es[i].0, k) {
            assert(entry_models(es@)[i as int].0 == k@);
            return i;
        }
        i += 1;
    }
    i
}

/// Position of the first item equal to `e`.
fn item_position(s: &Vec<Value>, e: &Value) -> (r: usize)
    ensures
        r as int == first_index(models(s@), e@),
{
    proof {
        lemma_models(s@);
        lemma_first_index(models(s@), e@);
    }
    let mut i: usize = 0;
    while i < s.len()
        invariant
            0 <= i <= s.len(),
            models(s@).len() == s@.len(),
            forall|j: int| 0 <= j < s@.len() ==> #[trigger] models(s@)[j] == value_model(s@[j]),
            forall|j: int| 0 <= j < i ==> models(s@)[j] != e@,
            0 <= first_index(models(s@), e@) <= s@.len(),
            first_index(models(s@), e@) < s@.len() ==> models(s@)[first_index(models(s@), e@)] == e@,
            forall|j: int| 0 <= j < first_index(models(s@), e@) ==> models(s@)[j] != e@,
        decreases s.len() - i,
    {
        if values_equal(&s[i], e) {
            assert(models(s@)[i as int] == e@);
            return i;
        }
        i += 1;
    }
    i
}

/// The sequence merge of `items` onto `acc`.
fn append_items_exec(acc: Vec<Value>, items: Vec<Value>) -> (r: Vec<Value>)
    ensures
        models(r@) == append_items(models(acc@), models(items@)),
{
    let ghost want = append_items(models(acc@), models(items@));
    let ghost im = models(items@);
    proof {
        lemma_models(items@);
    }
    let mut result = acc;
    let mut rest = items;
    let ghost mut n: int = 0;
    assert(im.skip(0) =~= im);
    while rest.len() > 0
        invariant
            0 <= n <= im.len(),
            models(rest@) == im.skip(n),
            append_items(models(result@), im.skip(n)) == want,
        decreases rest.len(),
    {
        proof {
            lemma_models(rest@);
            assert(rest@.len() == im.len() - n);
        }
        let ghost rest0 = rest@;
        let e = rest.remove(0);
        proof {
            lemma_models(rest0);
            assert(rest@ =~= rest0.drop_first());
            lemma_models(rest@);
            assert forall|k: int| 0 <= k < rest@.len() implies #[trigger] models(rest@)[k] == im.skip(n + 1)[k] by {
                assert(models(rest0)[k + 1] == im.skip(n)[k + 1]);
            }
            assert(models(rest@) =~= im.skip(n + 1));
            assert(im.skip(n)[0] == value_model(e));
            assert(im.skip(n).drop_first() =~= im.skip(n + 1));
        }
        let ghost r0 = result@;
        let pos = item_position(&result, &e);
        if pos < result.len() {
            let _gone = result.remove(pos);
            proof {
                lemma_models_remove(r0, pos as int);
            }
        }
        let ghost r1 = result@;
        result.push(e);
        proof {
            lemma_models_push(r1, e);
            assert(models(r1) == (if (pos as int) < r0.len() {
                models(r0).remove(pos as int)
            } else {
                models(r0)
            }));
            lemma_models(r0);
            assert(models(result@) == move_to_end(models(r0), value_model(e)));
            assert(im.skip(n).len() > 0);
            n = n + 1;
        }
    }
    proof {
        lemma_models(rest@);
        assert(im.skip(n) =~= Seq::<Yaml>::empty());
    }
    result
}

/// Whether one of the first `n` items equals `e`.
fn in_prefix(s: &Vec<Value>, n: usize, e: &Value) -> (r: bool)
    requires
        n <= s.len(),
    ensures
        r == models(s@).take(n as int).contains(e@),
{
    proof {
        lemma_models(s@);
    }
    let ghost t = models(s@).take(n as int);
    let mut i: usize = 0;
    while i < n
        invariant
            0 <= i <= n <= s.len(),
            t == models(s@).take(n as int),
            models(s@).len() == s@.len(),
            forall|j: int| 0 <= j < s@.len() ==> #[trigger] models(s@)[j] == value_model(s@[j]),
            forall|j: int| 0 <= j < i ==> t[j] != e@,
        decreases n - i,
    {
        if values_equal(&s[i], e) {
            assert(t[i as int] == e@);
            return true;
        }
        i += 1;
    }
    false
}

/// The prepend merge of base items `items` after the overlay items `acc`.
fn prepend_items_exec(acc: Vec<Value>, items: Vec<Value>) -> (r: Vec<Value>)
    ensures
        models(r@) == prepend_items(models(acc@), models(items@)),
{
    let ghost om = models(acc@);
    let ghost want = prepend_items(models(acc@), models(items@));
    let ghost im = models(items@);
    proof {
        lemma_models(items@);
        lemma_models(acc@);
    }
    let n0 = acc.len();
    let mut result = acc;
    let mut rest = items;
    let ghost mut n: int = 0;
    assert(im.skip(0) =~= im);
    assert(models(result@).take(n0 as int) =~= om);
    while rest.len() > 0
        invariant
            0 <= n <= im.len(),
            n0 <= result@.len(),
            om.len() == n0,
            models(rest@) == im.skip(n),
            models(result@).take(n0 as int) == om,
            models(result@) + kept_base(om, im.skip(n)) == want,
        decreases rest.len(),
    {
        proof {
            lemma_models(rest@);
            assert(rest@.len() == im.len() - n);
        }
        let ghost rest0 = rest@;
        let e = rest.remove(0);
        proof {
            lemma_models(rest0);
            assert(rest@ =~= rest0.drop_first());
            lemma_models(rest@);
            assert forall|k: int| 0 <= k < rest@.len() implies #[trigger] models(rest@)[k] == im.skip(n + 1)[k] by {
                assert(models(rest0)[k + 1] == im.skip(n)[k + 1]);
            }
            assert(models(rest@) =~= im.skip(n + 1));
            assert(im.skip(n)[0] == value_model(e));
            assert(im.skip(n).drop_first() =~= im.skip(n + 1));
        }
        let ghost r0 = models(result@);
        let ghost s0 = result@;
        let seen = in_prefix(&result, n0, &e);
        if !seen {
            result.push(e);
            proof {
                lemma_models_push(s0, e);
                lemma_models(s0);
                assert(models(result@) == r0.push(value_model(e)));
                assert(models(result@).take(n0 as int) =~= r0.take(n0 as int));
            }
        }
        proof {
            let x = value_model(e);
            let head = if om.contains(x) {
                Seq::<Yaml>::empty()
            } else {
                seq![x]
            };
            assert(im.skip(n).len() > 0);
            assert(kept_base(om, im.skip(n)) == head + kept_base(om, im.skip(n + 1)));
            assert(models(result@) =~= r0 + head);
            assert(r0 + kept_base(om, im.skip(n)) =~= (r0 + head) + kept_base(om, im.skip(n + 1)));
            n = n + 1;
        }
    }
    proof {
        lemma_models(rest@);
        assert(im.skip(n) =~= Seq::<Yaml>::empty());
        assert(models(result@) + Seq::<Yaml>::empty() =~= models(result@));
    }
    result
}

/// The prepend policy on two nodes.
fn prepend_values(base: Value, overlay: Value) -> (r: Value)
    ensures
        r@ == prepend_result(base@, overlay@),
{
    let both = match (untag(&base), untag(&overlay)) {
        (Value::Sequence(_), Value::Sequence(_)) => true,
        _ => false,
    };
    if !both {
        return overlay;
    }
    proof {
        reveal_with_fuel(value_model, 2);
    }
    let ghost ob = overlay@;
    let bxs = match base {
        Value::Sequence(xs) => xs,
        Value::Tagged(tv) => match tv.value {
            Value::Sequence(xs) => xs,
            _ => Vec::new(),
        },
        _ => Vec::new(),
    };
    let (tag, oxs) = match overlay {
        Value::Sequence(xs) => (None, xs),
        Value::Tagged(tv) => {
            let TaggedValue { tag, value } = *tv;
            match value {
                Value::Sequence(xs) => (Some(tag), xs),
                _ => (None, Vec::new()),
            }
        },
        _ => (None, Vec::new()),
    };
    assert(untagged(ob) == Yaml::List(models(oxs@)));
    assert(tag is Some ==> ob == Yaml::Tagged(tag->Some_0@, Box::new(Yaml::List(models(oxs@)))));
    assert(tag is None ==> !(ob is Tagged));
    let items = prepend_items_exec(oxs, bxs);
    match tag {
        Some(t) => Value::Tagged(Box::new(TaggedValue { tag: t, value: Value::Sequence(items) })),
        None => Value::Sequence(items),
    }
}

/// The debug form of an integer key.
fn integer_key_text(n: i128) -> (r: String)
    ensures
        r@ == (if n >= 0 {
            "Number(UInt("@ + decimal_text(n as int) + "))"@
        } else {
            "Number(Int("@ + decimal_text(n as int) + "))"@
        }),
{
    let digits = decimal_string(n);
    if n >= 0 {
        String::from_str("Number(UInt(").concat(digits.as_str()).concat("))")
    } else {
        String::from_str("Number(Int(").concat(digits.as_str()).concat("))")
    }
}

/// How a key stands in a dot-path.
fn key_text(k: &Value) -> (r: String)
    ensures
        r@ == key_label(k@),
{
    match k {
        Value::String(s) => s.clone(),
        Value::Number(Number::Int(i)) => integer_key_text(*i as i128),
        Value::Number(Number::UInt(u)) => integer_key_text(*u as i128),
        Value::Bool(b) => if *b {
            String::from_str("Bool(true)")
        } else {
            String::from_str("Bool(false)")
        },
        Value::Null => String::from_str("Null"),
        _ => value_type_name(k),
    }
}

/// The dot-path of the entry under `k` below `path`.
fn child_path_of(path: &str, k: &Value) -> (r: String)
    ensures
        r@ == child_path(path@, k@),
{
    let label = key_text(k);
    if path.unicode_len() == 0 {
        label
    } else {
        String::from_str(path).concat(".").concat(label.as_str())
    }
}

/// Whether a node is null, looked at through one tag.
fn is_null_value(v: &Value) -> (r: bool)
    ensures
        r == (untagged(v@) is Null),
{
    match untag(v) {
        Value::Null => true,
        _ => false,
    }
}

/// Whether a node is a scalar: a boolean, a number or a string.
fn is_scalar_value(v: &Value) -> (r: bool)
    ensures
        r == is_scalar(v@),
{
    match v {
        Value::Bool(_) | Value::Number(_) | Value::String(_) => true,
        _ => false,
    }
}

/// The entries of a mapping, looked at through one tag.
fn into_entries(v: Value) -> (r: Vec<(Value, Value)>)
    requires
        untagged(v@) is Dict,
    ensures
        untagged(v@) == Yaml::Dict(entry_models(r@)),
{
    proof {
        reveal_with_fuel(value_model, 2);
    }
    match v {
        Value::Mapping(es) => es,
        Value::Tagged(tv) => match tv.value {
            Value::Mapping(es) => es,
            _ => Vec::new(),
        },
        _ => Vec::new(),
    }
}

/// The items of a sequence, looked at through one tag.
fn into_items(v: Value) -> (r: Vec<Value>)
    requires
        untagged(v@) is List,
    ensures
        untagged(v@) == Yaml::List(models(r@)),
{
    proof {
        reveal_with_fuel(value_model, 2);
    }
    match v {
        Value::Sequence(xs) => xs,
        Value::Tagged(tv) => match tv.value {
            Value::Sequence(xs) => xs,
            _ => Vec::new(),
        },
        _ => Vec::new(),
    }
}

/// The entries that a stripped overlay merges lie inside the overlay.
pub(crate) proof fn lemma_stripped_below(ov: Yaml, sm: Yaml, oes: Seq<(Yaml, Yaml)>)
    requires
        extract_directive(ov) is Ok,
        extract_directive(ov)->Ok_0.1 == sm,
        untagged(sm) == Yaml::Dict(oes),
    ensures
        decreases_to!(ov => oes),
{
    let d = Yaml::Dict(oes);
    assert(decreases_to!(d => d->Dict_0));
    assert(d->Dict_0 == oes);
    match ov {
        Yaml::Tagged(tag, inner) => {
            assert(decreases_to!(ov => *inner));
            if *inner == d {
            } else {
                match *inner {
                    Yaml::Tagged(t2, i2) => {
                        assert(decreases_to!(*inner => *i2));
                        assert(*i2 == d);
                    },
                    _ => {},
                }
            }
        },
        _ => {
            assert(ov == d);
        },
    }
}

/// Merge `overlay` onto `base` at `path` (a dot-path from the merge root),
/// with the command-line policies `policies`.
pub fn merge_values(base: Value, overlay: Value, path: &str, policies: &PolicyTable) -> (r: Result<Value, Error>)
    ensures
        outcome(r, merge_spec(base@, overlay@, path@, policies@)),
        r is Ok && well_formed(base@) && well_formed(overlay@) ==> well_formed(r->Ok_0@),
    decreases overlay@,
{
    proof {
        if well_formed(base@) && well_formed(overlay@) && merge_spec(base@, overlay@, path@, policies@) is Ok {
            lemma_merge_wf(base@, overlay@, path@, policies@);
        }
    }
    let ghost ov = overlay@;
    let (op, stripped) = match extract_merge_directive(overlay) {
        Ok(x) => x,
        Err(e) => {
            return Err(e);
        },
    };
    let ghost sm = stripped@;
    let ghost sub = match (untagged(base@), untagged(sm)) {
        (Yaml::Dict(bes), Yaml::Dict(oes)) => merge_entries(bes, oes, path@, policies@),
        _ => Ok(Seq::empty()),
    };
    assert(merge_spec(base@, ov, path@, policies@) == settle(op, policy_at(policies@, path@), base@, sm, path@, sub));
    let policy = match policies.get(path) {
        Some(p) => p,
        None => match op {
            Some(o) => {
                let is_list = match untag(&stripped) {
                    Value::Sequence(_) => true,
                    _ => false,
                };
                if o != MergeOp::Replace && !is_list {
                    return Err(
                        Error::Type(
                            TypeError::DirectiveShape {
                                path: String::from_str(path),
                                op: o,
                                kind: value_type_name(untag(&stripped)),
                            },
                        ),
                    );
                }
                match o {
                    MergeOp::Replace => MergePolicy::Replace,
                    MergeOp::Append => MergePolicy::Merge,
                    MergeOp::Prepend => MergePolicy::Prepend,
                }
            },
            None => MergePolicy::Merge,
        },
    };
    assert(merge_spec(base@, ov, path@, policies@) == by_policy(policy, base@, sm, path@, sub));
    match policy {
        MergePolicy::Replace => {
            return Ok(stripped);
        },
        MergePolicy::Prepend => {
            return Ok(prepend_values(base, stripped));
        },
        MergePolicy::Merge => {},
    }
    let base_null = is_null_value(&base);
    let overlay_null = is_null_value(&stripped);
    if base_null && overlay_null {
        return Ok(stripped);
    }
    if overlay_null {
        return Ok(base);
    }
    if base_null {
        return Ok(stripped);
    }
    let shapes: u8 = match (untag(&base), untag(&stripped)) {
        (Value::Mapping(_), Value::Mapping(_)) => 0,
        (Value::Sequence(_), Value::Sequence(_)) => 1,
        (b, o) => if is_scalar_value(b) && is_scalar_value(o) {
            2
        } else {
            3
        },
    };
    if shapes == 0 {
        let bes = into_entries(base);
        let (tag, inner) = split_tag(stripped);
        let oes = into_entries(inner);
        proof {
            lemma_stripped_below(ov, sm, entry_models(oes@));
        }
        match merge_mapping(bes, oes, path, policies) {
            Ok(es) => Ok(retag_value(tag, Value::Mapping(es))),
            Err(e) => Err(e),
        }
    } else if shapes == 1 {
        let bxs = into_items(base);
        let (tag, inner) = split_tag(stripped);
        let oxs = into_items(inner);
        Ok(retag_value(tag, Value::Sequence(append_items_exec(bxs, oxs))))
    } else if shapes == 2 {
        Ok(stripped)
    } else {
        Err(
            Error::Type(
                TypeError::Mismatch {
                    path: String::from_str(path),
                    base_kind: value_type_name(untag(&base)),
                    overlay_kind: value_type_name(untag(&stripped)),
                },
            ),
        )
    }
}

/// Merge the overlay entries onto the base entries.
fn merge_mapping(base: Vec<(Value, Value)>, overlay: Vec<(Value, Value)>, path: &str, policies: &PolicyTable) -> (r: Result<Vec<(Value, Value)>, Error>)
    ensures
        match merge_entries(entry_models(base@), entry_models(overlay@), path@, policies@) {
            Ok(es) => r is Ok && entry_models(r->Ok_0@) == es,
            Err(f) => r is Err && r->Err_0@ == f,
        },
    decreases entry_models(overlay@),
{
    let ghost om = entry_models(overlay@);
    let ghost want = merge_entries(entry_models(base@), om, path@, policies@);
    proof {
        lemma_entry_models(overlay@);
    }
    let mut result = base;
    let mut rest = overlay;
    let ghost mut n: int = 0;
    assert(om.skip(0) =~= om);
    while rest.len() > 0
        invariant
            0 <= n <= om.len(),
            om == entry_models(overlay@),
            entry_models(rest@) == om.skip(n),
            merge_entries(entry_models(result@), om.skip(n), path@, policies@) == want,
            want == merge_entries(entry_models(base@), om, path@, policies@),
        decreases rest.len(),
    {
        proof {
            lemma_entry_models(rest@);
            assert(rest@.len() == om.len() - n);
        }
        let ghost rest0 = rest@;
        let (k, v) = rest.remove(0);
        proof {
            lemma_entry_models(rest0);
            assert(rest@ =~= rest0.drop_first());
            lemma_entry_models(rest@);
            assert forall|i: int| 0 <= i < rest@.len() implies #[trigger] entry_models(rest@)[i] == om.skip(n + 1)[i] by {
                assert(entry_models(rest0)[i + 1] == om.skip(n)[i + 1]);
            }
            assert(entry_models(rest@) =~= om.skip(n + 1));
            assert(om.skip(n)[0] == (value_model(k), value_model(v)));
            assert(om.skip(n).drop_first() =~= om.skip(n + 1));
            assert(om.skip(n)[0] == om[n]);
        }
        let ghost r0 = result@;
        proof {
            lemma_entry_models(r0);
        }
        let j = key_position(&result, &k);
        if is_null_value(&v) {
            if j < result.len() {
                let _gone = result.remove(j);
                proof {
                    lemma_entry_models_remove(r0, j as int);
                }
            }
        } else if j < result.len() {
            let (ek, ev) = result.remove(j);
            let child = child_path_of(path, &k);
            proof {
                assert(decreases_to!(om => om[n]));
                assert(decreases_to!(om[n] => om[n].1));
            }
            match merge_values(ev, v, child.as_str(), policies) {
                Ok(m) => {
                    result.insert(j, (ek, m));
                    proof {
                        assert(result@ =~= r0.update(j as int, (ek, m)));
                        lemma_entry_models_update(r0, j as int, (ek, m));
                    }
                },
                Err(e) => {
                    return Err(e);
                },
            }
        } else {
            match extract_merge_directive(v) {
                Ok((_, stripped)) => {
                    result.push((k, stripped));
                    proof {
                        lemma_entry_models_push(r0, (k, stripped));
                    }
                },
                Err(e) => {
                    return Err(e);
                },
            }
        }
        proof {
            n = n + 1;
        }
    }
    proof {
        lemma_entry_models(rest@);
        assert(om.skip(n) =~= Seq::<(Yaml, Yaml)>::empty());
    }
    Ok(result)
}

/// Folding overlays onto a base, left to right, each from the root path.
pub open spec fn apply_spec(base: Yaml, overlays: Seq<Yaml>, t: Seq<(Seq<char>, MergePolicy)>) -> Result<Yaml, Fault>
    decreases overlays.len(),
{
    if overlays.len() == 0 {
        Ok(base)
    } else {
        match apply_spec(base, overlays.drop_last(), t) {
            Err(f) => Err(f),
            Ok(b) => merge_spec(b, overlays.last(), Seq::empty(), t),
        }
    }
}

proof fn lemma_apply_error(base: Yaml, s: Seq<Yaml>, n: int, t: Seq<(Seq<char>, MergePolicy)>)
    requires
        0 <= n <= s.len(),
        apply_spec(base, s.take(n), t) is Err,
    ensures
        apply_spec(base, s, t) == apply_spec(base, s.take(n), t),
    decreases s.len(),
{
    if n < s.len() {
        assert(s.drop_last().take(n) =~= s.take(n));
        lemma_apply_error(base, s.drop_last(), n, t);
    } else {
        assert(s.take(n) =~= s);
    }
}

/// Merge each overlay document onto the base in turn; the first error stops
/// the whole fold. An empty overlay document is a null, which changes nothing.
pub fn apply_overlays(base: Value, overlays: Vec<Value>, policies: &PolicyTable) -> (r: Result<Value, Error>)
    ensures
        outcome(r, apply_spec(base@, models(overlays@), policies@)),
        r is Ok && well_formed(base@) && items_wf(models(overlays@)) ==> well_formed(r->Ok_0@),
{
    proof {
        if well_formed(base@) && items_wf(models(overlays@)) && apply_spec(base@, models(overlays@), policies@) is Ok {
            lemma_apply_wf(base@, models(overlays@), policies@);
        }
    }
    let ghost all = models(overlays@);
    proof {
        lemma_models(overlays@);
    }
    let mut result = base;
    let mut rest = overlays;
    let ghost mut n: int = 0;
    assert(all.take(0) =~= Seq::<Yaml>::empty());
    assert(all.skip(0) =~= all);
    while rest.len() > 0
        invariant
            0 <= n <= all.len(),
            all == models(overlays@),
            models(rest@) == all.skip(n),
            apply_spec(base@, all.take(n), policies@) == Ok::<Yaml, Fault>(result@),
        decreases rest.len(),
    {
        proof {
            lemma_models(rest@);
            assert(rest@.len() == all.len() - n);
        }
        let ghost rest0 = rest@;
        let overlay = rest.remove(0);
        proof {
            lemma_models(rest0);
            lemma_models(rest@);
            assert(rest@ =~= rest0.drop_first());
            assert forall|i: int| 0 <= i < rest@.len() implies #[trigger] models(rest@)[i] == all.skip(n + 1)[i] by {
                assert(models(rest0)[i + 1] == all.skip(n)[i + 1]);
            }
            assert(models(rest@) =~= all.skip(n + 1));
            assert(all.skip(n)[0] == value_model(overlay));
            assert(all.take(n + 1).drop_last() =~= all.take(n));
            assert(all.take(n + 1).last() == all[n]);
        }
        let ghost r0 = result@;
        proof {
            reveal_strlit("");
            assert(""@ =~= Seq::<char>::empty());
        }
        match merge_values(result, overlay, "", policies) {
            Ok(v) => {
                result = v;
            },
            Err(e) => {
                proof {
                    lemma_apply_error(base@, all, n + 1, policies@);
                }
                return Err(e);
            },
        }
        proof {
            n = n + 1;
        }
    }
    proof {
        lemma_models(rest@);
        assert(all.take(n) =~= all);
    }
    Ok(result)
}

} // verus!
