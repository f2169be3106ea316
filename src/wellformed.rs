//! Set, delete and merge keep mapping keys distinct throughout the tree.
use vstd::prelude::*;
use crate::merge::{
    apply_spec, append_items, extract_directive, first_index, lemma_first_index, lemma_stripped_below,
    kept_base, merge_entries, merge_spec, move_to_end, prepend_items, prepend_result, remove_key,
};
use crate::mutation::{del_at_node, del_in, put, set_at_node, set_in};
use crate::query::{key_index, lemma_key_index, retag, untagged};
use crate::value::{distinct_keys, well_formed, Yaml};

verus! {

pub open spec fn items_wf(xs: Seq<Yaml>) -> bool {
    forall|i: int| 0 <= i < xs.len() ==> well_formed(#[trigger] xs[i])
}

pub open spec fn entries_wf(es: Seq<(Yaml, Yaml)>) -> bool {
    forall|i: int| 0 <= i < es.len() ==> well_formed(#[trigger] es[i].0) && well_formed(es[i].1)
}

proof fn lemma_put_keeps(es: Seq<(Yaml, Yaml)>, k: Yaml, w: Yaml)
    requires
        distinct_keys(es),
        entries_wf(es),
        well_formed(k),
        well_formed(w),
    ensures
        distinct_keys(put(es, k, w)),
        entries_wf(put(es, k, w)),
{
    lemma_key_index(es, k);
    let p = put(es, k, w);
    let j = key_index(es, k);
    if j < es.len() {
        assert forall|a: int, b: int| 0 <= a < b < p.len() implies p[a].0 != p[b].0 by {
            assert(p[a].0 == es[a].0 && p[b].0 == es[b].0);
        }
    } else {
        assert forall|a: int, b: int| 0 <= a < b < p.len() implies p[a].0 != p[b].0 by {
            if b == es.len() {
                assert(p[a] == es[a]);
            } else {
                assert(p[a] == es[a] && p[b] == es[b]);
            }
        }
    }
    assert forall|i: int| 0 <= i < p.len() implies well_formed(#[trigger] p[i].0) && well_formed(p[i].1) by {
        if i < es.len() && i != j {
            assert(p[i] == es[i]);
        }
    }
}

proof fn lemma_remove_keeps(es: Seq<(Yaml, Yaml)>, j: int)
    requires
        0 <= j < es.len(),
        distinct_keys(es),
        entries_wf(es),
    ensures
        distinct_keys(es.remove(j)),
        entries_wf(es.remove(j)),
{
    let r = es.remove(j);
    assert forall|a: int, b: int| 0 <= a < b < r.len() implies r[a].0 != r[b].0 by {
        let a2 = if a < j { a } else { a + 1 };
        let b2 = if b < j { b } else { b + 1 };
        assert(r[a] == es[a2] && r[b] == es[b2]);
    }
    assert forall|i: int| 0 <= i < r.len() implies well_formed(#[trigger] r[i].0) && well_formed(r[i].1) by {
        if i < j {
            assert(r[i] == es[i]);
        } else {
            assert(r[i] == es[i + 1]);
        }
    }
}

proof fn lemma_update_value_keeps(es: Seq<(Yaml, Yaml)>, j: int, c: Yaml)
    requires
        0 <= j < es.len(),
        distinct_keys(es),
        entries_wf(es),
        well_formed(c),
    ensures
        distinct_keys(es.update(j, (es[j].0, c))),
        entries_wf(es.update(j, (es[j].0, c))),
{
    let r = es.update(j, (es[j].0, c));
    assert forall|a: int, b: int| 0 <= a < b < r.len() implies r[a].0 != r[b].0 by {
        assert(r[a].0 == es[a].0 && r[b].0 == es[b].0);
    }
    assert forall|i: int| 0 <= i < r.len() implies well_formed(#[trigger] r[i].0) && well_formed(r[i].1) by {
        if i != j {
            assert(r[i] == es[i]);
        }
    }
}

/// A successful set of a well-formed value into a well-formed tree leaves
/// it well-formed.
pub proof fn lemma_set_in_wf(v: Yaml, segs: Seq<Seq<char>>, new: Yaml, path: Seq<char>)
    requires
        well_formed(v),
        well_formed(new),
        set_in(v, segs, new, path) is Ok,
    ensures
        well_formed(set_in(v, segs, new, path)->Ok_0),
    decreases segs.len(), 1nat,
{
    lemma_set_at_node_wf(untagged(v), segs, new, path);
}

proof fn lemma_set_at_node_wf(v: Yaml, segs: Seq<Seq<char>>, new: Yaml, path: Seq<char>)
    requires
        well_formed(v),
        well_formed(new),
        set_at_node(v, segs, new, path) is Ok,
    ensures
        well_formed(set_at_node(v, segs, new, path)->Ok_0),
    decreases segs.len(), 0nat,
{
    if segs.len() > 0 {
        let seg = segs[0];
        match v {
            Yaml::Dict(es) => {
                let j = key_index(es, Yaml::Str(seg));
                lemma_key_index(es, Yaml::Str(seg));
                let child = if j < es.len() {
                    es[j].1
                } else {
                    Yaml::Dict(Seq::empty())
                };
                let c = if segs.len() == 1 {
                    new
                } else {
                    lemma_set_in_wf(child, segs.drop_first(), new, path);
                    set_in(child, segs.drop_first(), new, path)->Ok_0
                };
                lemma_put_keeps(es, Yaml::Str(seg), c);
            },
            Yaml::List(xs) => {
                let i = crate::path::index_in(seg, xs.len() as int, path)->Ok_0;
                let c = if segs.len() == 1 {
                    new
                } else {
                    lemma_set_in_wf(xs[i], segs.drop_first(), new, path);
                    set_in(xs[i], segs.drop_first(), new, path)->Ok_0
                };
                let r = xs.update(i, c);
                assert forall|a: int| 0 <= a < r.len() implies well_formed(#[trigger] r[a]) by {
                    if a != i {
                        assert(r[a] == xs[a]);
                    }
                }
            },
            _ => {},
        }
    }
}

/// A successful delete from a well-formed tree leaves it well-formed.
pub proof fn lemma_del_in_wf(v: Yaml, segs: Seq<Seq<char>>, path: Seq<char>)
    requires
        well_formed(v),
        del_in(v, segs, path) is Ok,
    ensures
        well_formed(del_in(v, segs, path)->Ok_0),
    decreases segs.len(), 1nat,
{
    lemma_del_at_node_wf(untagged(v), segs, path);
}

proof fn lemma_del_at_node_wf(v: Yaml, segs: Seq<Seq<char>>, path: Seq<char>)
    requires
        well_formed(v),
        del_at_node(v, segs, path) is Ok,
    ensures
        well_formed(del_at_node(v, segs, path)->Ok_0),
    decreases segs.len(), 0nat,
{
    if segs.len() > 0 {
        let seg = segs[0];
        match v {
            Yaml::Dict(es) => {
                let j = key_index(es, Yaml::Str(seg));
                lemma_key_index(es, Yaml::Str(seg));
                if segs.len() == 1 {
                    lemma_remove_keeps(es, j);
                } else {
                    lemma_del_in_wf(es[j].1, segs.drop_first(), path);
                    lemma_update_value_keeps(es, j, del_in(es[j].1, segs.drop_first(), path)->Ok_0);
                }
            },
            Yaml::List(xs) => {
                let i = crate::path::index_in(seg, xs.len() as int, path)->Ok_0;
                if segs.len() == 1 {
                    let r = xs.remove(i);
                    assert forall|a: int| 0 <= a < r.len() implies well_formed(#[trigger] r[a]) by {
                        if a < i {
                            assert(r[a] == xs[a]);
                        } else {
                            assert(r[a] == xs[a + 1]);
                        }
                    }
                } else {
                    lemma_del_in_wf(xs[i], segs.drop_first(), path);
                    let c = del_in(xs[i], segs.drop_first(), path)->Ok_0;
                    let r = xs.update(i, c);
                    assert forall|a: int| 0 <= a < r.len() implies well_formed(#[trigger] r[a]) by {
                        if a != i {
                            assert(r[a] == xs[a]);
                        }
                    }
                }
            },
            _ => {},
        }
    }
}

proof fn lemma_extract_wf(v: Yaml)
    requires
        well_formed(v),
        extract_directive(v) is Ok,
    ensures
        well_formed(extract_directive(v)->Ok_0.1),
{
}

proof fn lemma_append_wf(acc: Seq<Yaml>, items: Seq<Yaml>)
    requires
        items_wf(acc),
        items_wf(items),
    ensures
        items_wf(append_items(acc, items)),
    decreases items.len(),
{
    if items.len() > 0 {
        let e = items[0];
        let j = first_index(acc, e);
        lemma_first_index(acc, e);
        let m = move_to_end(acc, e);
        assert forall|i: int| 0 <= i < m.len() implies well_formed(#[trigger] m[i]) by {
            if j < acc.len() {
                let r = acc.remove(j);
                if i < r.len() {
                    if i < j {
                        assert(m[i] == acc[i]);
                    } else {
                        assert(m[i] == acc[i + 1]);
                    }
                }
            } else if i < acc.len() {
                assert(m[i] == acc[i]);
            }
        }
        assert forall|i: int| 0 <= i < items.drop_first().len() implies well_formed(#[trigger] items.drop_first()[i]) by {
            assert(items.drop_first()[i] == items[i + 1]);
        }
        lemma_append_wf(m, items.drop_first());
    }
}

proof fn lemma_kept_wf(oxs: Seq<Yaml>, bxs: Seq<Yaml>)
    requires
        items_wf(bxs),
    ensures
        items_wf(kept_base(oxs, bxs)),
    decreases bxs.len(),
{
    if bxs.len() > 0 {
        let rest = bxs.drop_first();
        assert forall|i: int| 0 <= i < rest.len() implies well_formed(#[trigger] rest[i]) by {
            assert(rest[i] == bxs[i + 1]);
        }
        lemma_kept_wf(oxs, rest);
        let head = if oxs.contains(bxs[0]) {
            Seq::<Yaml>::empty()
        } else {
            seq![bxs[0]]
        };
        let k = kept_base(oxs, bxs);
        assert(k == head + kept_base(oxs, rest));
        assert forall|i: int| 0 <= i < k.len() implies well_formed(#[trigger] k[i]) by {
            if i < head.len() {
                assert(k[i] == bxs[0]);
            } else {
                assert(k[i] == kept_base(oxs, rest)[i - head.len()]);
            }
        }
    }
}

proof fn lemma_prepend_wf(oxs: Seq<Yaml>, bxs: Seq<Yaml>)
    requires
        items_wf(oxs),
        items_wf(bxs),
    ensures
        items_wf(prepend_items(oxs, bxs)),
{
    lemma_kept_wf(oxs, bxs);
    let k = kept_base(oxs, bxs);
    let p = prepend_items(oxs, bxs);
    assert forall|i: int| 0 <= i < p.len() implies well_formed(#[trigger] p[i]) by {
        if i < oxs.len() {
            assert(p[i] == oxs[i]);
        } else {
            assert(p[i] == k[i - oxs.len()]);
        }
    }
}

/// A successful merge of two well-formed trees is well-formed.
pub proof fn lemma_merge_wf(base: Yaml, overlay: Yaml, path: Seq<char>, t: Seq<(Seq<char>, crate::policy::MergePolicy)>)
    requires
        well_formed(base),
        well_formed(overlay),
        merge_spec(base, overlay, path, t) is Ok,
    ensures
        well_formed(merge_spec(base, overlay, path, t)->Ok_0),
    decreases overlay,
{
    lemma_extract_wf(overlay);
    let stripped = extract_directive(overlay)->Ok_0.1;
    let b = untagged(base);
    let o = untagged(stripped);
    assert(well_formed(b));
    assert(well_formed(o));
    match (b, o) {
        (Yaml::Dict(bes), Yaml::Dict(oes)) => {
            lemma_stripped_below(overlay, stripped, oes);
            if merge_entries(bes, oes, path, t) is Ok {
                lemma_entries_wf(bes, oes, path, t);
                let es = merge_entries(bes, oes, path, t)->Ok_0;
                assert(distinct_keys(es));
                assert forall|i: int| 0 <= i < es.len() implies well_formed(#[trigger] es[i].0) && well_formed(es[i].1) by {}
                assert(well_formed(Yaml::Dict(es)));
                assert(well_formed(retag(stripped, Yaml::Dict(es))));
            }
        },
        (Yaml::List(bxs), Yaml::List(oxs)) => {
            assert(items_wf(bxs));
            assert(items_wf(oxs));
            lemma_append_wf(bxs, oxs);
            let a = append_items(bxs, oxs);
            assert(well_formed(Yaml::List(a)));
            assert(well_formed(retag(stripped, Yaml::List(a))));
            lemma_prepend_wf(oxs, bxs);
            let items = prepend_items(oxs, bxs);
            assert(well_formed(Yaml::List(items)));
            match stripped {
                Yaml::Tagged(tg, _) => {
                    assert(well_formed(Yaml::Tagged(tg, Box::new(Yaml::List(items)))));
                },
                _ => {},
            }
            assert(well_formed(prepend_result(base, stripped)));
        },
        _ => {
            assert(prepend_result(base, stripped) == stripped);
        },
    }
}

/// A successful mapping merge of well-formed entries has distinct,
/// well-formed entries.
pub proof fn lemma_entries_wf(acc: Seq<(Yaml, Yaml)>, oes: Seq<(Yaml, Yaml)>, path: Seq<char>, t: Seq<(Seq<char>, crate::policy::MergePolicy)>)
    requires
        distinct_keys(acc),
        entries_wf(acc),
        entries_wf(oes),
        merge_entries(acc, oes, path, t) is Ok,
    ensures
        distinct_keys(merge_entries(acc, oes, path, t)->Ok_0),
        entries_wf(merge_entries(acc, oes, path, t)->Ok_0),
    decreases oes,
{
    if oes.len() > 0 {
        let k = oes[0].0;
        let v = oes[0].1;
        let rest = oes.drop_first();
        assert forall|i: int| 0 <= i < rest.len() implies well_formed(#[trigger] rest[i].0) && well_formed(rest[i].1) by {
            assert(rest[i] == oes[i + 1]);
            assert(well_formed(oes[i + 1].0) && well_formed(oes[i + 1].1));
        }
        lemma_key_index(acc, k);
        let j = key_index(acc, k);
        if untagged(v) is Null {
            if j < acc.len() {
                lemma_remove_keeps(acc, j);
            }
            lemma_entries_wf(remove_key(acc, k), rest, path, t);
        } else {
            let merged = if j < acc.len() {
                merge_spec(acc[j].1, v, crate::merge::child_path(path, k), t)
            } else {
                match extract_directive(v) {
                    Ok((_, s)) => Ok(s),
                    Err(f) => Err(f),
                }
            };
            if j < acc.len() {
                assert(decreases_to!(oes => oes[0]));
                assert(decreases_to!(oes[0] => oes[0].1));
                lemma_merge_wf(acc[j].1, v, crate::merge::child_path(path, k), t);
            } else {
                lemma_extract_wf(v);
            }
            let m = merged->Ok_0;
            lemma_put_keeps(acc, k, m);
            lemma_entries_wf(put(acc, k, m), rest, path, t);
        }
    }
}

/// Folding well-formed overlays onto a well-formed base, when it succeeds,
/// gives a well-formed tree.
pub proof fn lemma_apply_wf(base: Yaml, overlays: Seq<Yaml>, t: Seq<(Seq<char>, crate::policy::MergePolicy)>)
    requires
        well_formed(base),
        items_wf(overlays),
        apply_spec(base, overlays, t) is Ok,
    ensures
        well_formed(apply_spec(base, overlays, t)->Ok_0),
    decreases overlays.len(),
{
    if overlays.len() > 0 {
        let front = overlays.drop_last();
        assert forall|i: int| 0 <= i < front.len() implies well_formed(#[trigger] front[i]) by {
            assert(front[i] == overlays[i]);
        }
        lemma_apply_wf(base, front, t);
        let b = apply_spec(base, front, t)->Ok_0;
        lemma_merge_wf(b, overlays.last(), Seq::empty(), t);
    }
}

} // verus!
