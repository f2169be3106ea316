//! Laws that relate the operations to one another, proved over their models.
use vstd::prelude::*;
use crate::error::Fault;
use crate::merge::{apply_spec, by_policy, extract_directive, merge_entries, merge_spec};
use crate::mutation::{del_spec, put, set_at_node, set_in, set_spec};
use crate::path::path_segments;
use crate::policy::{policy_at, MergePolicy};
use crate::query::{get_at, get_in, key_index, lemma_key_index, segment_entry, step_in, untagged};
use crate::value::{distinct_keys, Yaml};

verus! {

proof fn lemma_put_found(es: Seq<(Yaml, Yaml)>, k: Yaml, w: Yaml)
    ensures
        key_index(put(es, k, w), k) < put(es, k, w).len(),
        put(es, k, w)[key_index(put(es, k, w), k)] == (k, w),
{
    lemma_key_index(es, k);
    let j = key_index(es, k);
    let p = put(es, k, w);
    lemma_key_index(p, k);
    if j < es.len() {
        assert(p[j].0 == k);
        assert forall|i: int| 0 <= i < j implies p[i].0 != k by {
            assert(p[i] == es[i]);
        }
    } else {
        assert forall|i: int| 0 <= i < es.len() implies p[i].0 != k by {
            assert(p[i] == es[i]);
        }
        assert(p[es.len() as int] == (k, w));
    }
    let m = key_index(p, k);
    if m < j || (j >= es.len() && m < es.len()) {
        assert(p[m].0 != k);
    }
}

proof fn lemma_set_then_get_in(v0: Yaml, segs: Seq<Seq<char>>, new: Yaml, path: Seq<char>)
    requires
        segs.len() >= 1,
        set_in(v0, segs, new, path) is Ok,
    ensures
        get_in(set_in(v0, segs, new, path)->Ok_0, segs, path) == Ok::<Yaml, crate::error::PathFault>(new),
    decreases segs.len(),
{
    let seg = segs[0];
    let v = untagged(v0);
    let r = set_at_node(v, segs, new, path)->Ok_0;
    assert(untagged(set_in(v0, segs, new, path)->Ok_0) == r);
    match v {
        Yaml::Dict(es) => {
            let j = key_index(es, Yaml::Str(seg));
            lemma_key_index(es, Yaml::Str(seg));
            let child = if j < es.len() {
                es[j].1
            } else {
                Yaml::Dict(Seq::empty())
            };
            let c = if segs.len() == 1 {
                new
            } else {
                set_in(child, segs.drop_first(), new, path)->Ok_0
            };
            let p = put(es, Yaml::Str(seg), c);
            assert(r == Yaml::Dict(p));
            lemma_put_found(es, Yaml::Str(seg), c);
            lemma_key_index(p, Yaml::Str(seg));
            assert(segment_entry(p, seg) == key_index(p, Yaml::Str(seg)));
            assert(step_in(untagged(r), seg, path) == Ok::<Yaml, crate::error::PathFault>(c));
            let whole = set_in(v0, segs, new, path)->Ok_0;
            assert(step_in(untagged(whole), segs[0], path) == Ok::<Yaml, crate::error::PathFault>(c));
            assert(get_in(whole, segs, path) == get_in(c, segs.drop_first(), path));
            if segs.len() > 1 {
                lemma_set_then_get_in(child, segs.drop_first(), new, path);
                assert(get_in(c, segs.drop_first(), path) == Ok::<Yaml, crate::error::PathFault>(new));
            } else {
                assert(segs.drop_first().len() == 0);
                assert(c == new);
                assert(get_in(c, segs.drop_first(), path) == Ok::<Yaml, crate::error::PathFault>(c));
            }
        },
        Yaml::List(xs) => {
            let i = crate::path::index_in(seg, xs.len() as int, path)->Ok_0;
            let whole = set_in(v0, segs, new, path)->Ok_0;
            assert(untagged(whole) == r);
            let c = if segs.len() == 1 {
                new
            } else {
                set_in(xs[i], segs.drop_first(), new, path)->Ok_0
            };
            assert(r == Yaml::List(xs.update(i, c)));
            assert(get_in(whole, segs, path) == get_in(c, segs.drop_first(), path));
            if segs.len() > 1 {
                lemma_set_then_get_in(xs[i], segs.drop_first(), new, path);
            } else {
                assert(segs.drop_first().len() == 0);
                assert(get_in(c, segs.drop_first(), path) == Ok::<Yaml, crate::error::PathFault>(c));
            }
        },
        _ => {
            assert(set_at_node(v, segs, new, path) is Err);
        },
    }
}

/// Reading a path right after setting it gives the value set, whenever the
/// set succeeds (its parents exist or can be created).
pub proof fn set_then_get(root: Yaml, p: Seq<char>, v: Yaml)
    requires
        set_spec(root, p, v) is Ok,
    ensures
        get_at(set_spec(root, p, v)->Ok_0, Some(p)) == Ok::<Yaml, crate::error::PathFault>(v),
{
    crate::path::lemma_path_segments_nonempty(p);
    let start = if root == Yaml::Null {
        Yaml::Dict(Seq::empty())
    } else {
        root
    };
    lemma_set_then_get_in(start, path_segments(p), v, p);
}

/// Deleting a top-level key of a mapping and setting it again brings the key
/// back, with the new value, as the last entry: the other entries keep their
/// order, and the key's former position is lost.
pub proof fn delete_then_set(es: Seq<(Yaml, Yaml)>, p: Seq<char>, v: Yaml)
    requires
        path_segments(p).len() == 1,
        path_segments(p)[0].len() > 0,
        key_index(es, Yaml::Str(path_segments(p)[0])) < es.len(),
        distinct_keys(es),
    ensures
        del_spec(Yaml::Dict(es), p) is Ok,
        set_spec(del_spec(Yaml::Dict(es), p)->Ok_0, p, v) == Ok::<Yaml, crate::error::PathFault>(
            Yaml::Dict(
                es.remove(key_index(es, Yaml::Str(path_segments(p)[0]))).push(
                    (Yaml::Str(path_segments(p)[0]), v),
                ),
            ),
        ),
{
    let seg = path_segments(p)[0];
    let k = Yaml::Str(seg);
    let j = key_index(es, k);
    lemma_key_index(es, k);
    let rest = es.remove(j);
    assert(del_spec(Yaml::Dict(es), p) == Ok::<Yaml, crate::error::PathFault>(Yaml::Dict(rest)));
    lemma_key_index(rest, k);
    assert forall|i: int| 0 <= i < rest.len() implies rest[i].0 != k by {
        if i < j {
            assert(rest[i] == es[i]);
        } else {
            assert(rest[i] == es[i + 1]);
            assert(es[j].0 != es[i + 1].0);
        }
    }
    if key_index(rest, k) < rest.len() {
        assert(rest[key_index(rest, k)].0 == k);
    }
    assert(key_index(rest, k) == rest.len());
}

/// Merging a null overlay leaves the base as it is, unless a command-line
/// policy for that path replaces or prepends, or the base is a tagged null
/// (which the null overlay replaces).
pub proof fn null_overlay_keeps_base(base: Yaml, path: Seq<char>, t: Seq<(Seq<char>, MergePolicy)>)
    requires
        policy_at(t, path) is None || policy_at(t, path) == Some(MergePolicy::Merge),
        base == Yaml::Null || !(untagged(base) is Null),
    ensures
        merge_spec(base, Yaml::Null, path, t) == Ok::<Yaml, Fault>(base),
{
}

/// Applying one empty (null) overlay document leaves the base document as it
/// is, under the same conditions on the root path's policy and the base.
pub proof fn empty_overlay_document_keeps_base(base: Yaml, t: Seq<(Seq<char>, MergePolicy)>)
    requires
        policy_at(t, Seq::empty()) is None || policy_at(t, Seq::empty()) == Some(MergePolicy::Merge),
        base == Yaml::Null || !(untagged(base) is Null),
    ensures
        apply_spec(base, seq![Yaml::Null], t) == Ok::<Yaml, Fault>(base),
{
    let s = seq![Yaml::Null];
    assert(s.drop_last() =~= Seq::<Yaml>::empty());
    assert(apply_spec(base, s.drop_last(), t) == Ok::<Yaml, Fault>(base));
    assert(s.last() == Yaml::Null);
    null_overlay_keeps_base(base, Seq::empty(), t);
}

/// The merge of the entries of two nodes, when both are mappings.
pub open spec fn entries_merge(base: Yaml, overlay: Yaml, path: Seq<char>, t: Seq<(Seq<char>, MergePolicy)>) -> Result<Seq<(Yaml, Yaml)>, Fault> {
    match (untagged(base), untagged(overlay)) {
        (Yaml::Dict(bes), Yaml::Dict(oes)) => merge_entries(bes, oes, path, t),
        _ => Ok(Seq::empty()),
    }
}

/// A command-line policy for a path decides the merge there: the overlay's
/// merge directive is taken off, but it neither chooses the policy nor is
/// checked against the overlay's shape.
pub proof fn table_policy_wins(base: Yaml, overlay: Yaml, path: Seq<char>, t: Seq<(Seq<char>, MergePolicy)>)
    requires
        policy_at(t, path) is Some,
        extract_directive(overlay) is Ok,
    ensures
        merge_spec(base, overlay, path, t) == by_policy(
            policy_at(t, path)->Some_0,
            base,
            extract_directive(overlay)->Ok_0.1,
            path,
            entries_merge(base, extract_directive(overlay)->Ok_0.1, path, t),
        ),
{
}

/// Whatever the policy source, a successful merge of an overlay whose tag
/// keeps other parts besides its merge directive gives a node with exactly
/// those other parts as its tag; the directive never survives. A tagged null
/// overlay is left out: a null overlay leaves the base as it is.
pub proof fn remaining_tag_kept(base: Yaml, overlay: Yaml, path: Seq<char>, t: Seq<(Seq<char>, MergePolicy)>)
    requires
        extract_directive(overlay) is Ok,
        extract_directive(overlay)->Ok_0.1 is Tagged,
        !(untagged(extract_directive(overlay)->Ok_0.1) is Null),
        merge_spec(base, overlay, path, t) is Ok,
    ensures
        merge_spec(base, overlay, path, t)->Ok_0 is Tagged,
        merge_spec(base, overlay, path, t)->Ok_0->Tagged_0 == extract_directive(overlay)->Ok_0.1->Tagged_0,
{
}

} // verus!
