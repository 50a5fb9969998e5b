//! Laws of the conversion: what compaction preserves, and how the indent
//! level of a row fixes its place in the forest.

use vstd::prelude::*;

use crate::builder::can_insert;
use crate::builder::compact_of;
use crate::builder::inserted;
use crate::layout::CompactView;
use crate::layout::VerboseView;
use crate::layout::kv_get;
use crate::layout::kv_has;
use crate::layout::kv_unique;
use crate::layout::lemma_kv_upsert_get;
use crate::layout::lemma_kv_upsert_has;
use crate::layout::lemma_kv_upsert_unique;
use crate::rows::CellView;
use crate::rows::forest_insert;
use crate::rows::parse_upto;
use crate::rows::row_info;

verus! {

/// The number of nodes of a verbose tree.
pub open spec fn vcount(v: VerboseView) -> nat
    decreases v,
{
    1 + vcount_seq(v.nested)
}

/// The number of nodes of a verbose forest.
pub open spec fn vcount_seq(s: Seq<VerboseView>) -> nat
    decreases s,
{
    if s.len() == 0 {
        0
    } else {
        vcount_seq(s.drop_last()) + vcount(s.last())
    }
}

/// The number of nodes of a compact tree.
pub open spec fn ccount(c: CompactView) -> nat
    decreases c,
{
    1 + ccount_seq(c.nested)
}

/// The number of nodes of a compact collection.
pub open spec fn ccount_seq(s: Seq<(Seq<char>, CompactView)>) -> nat
    decreases s,
{
    if s.len() == 0 {
        0
    } else {
        ccount_seq(s.drop_last()) + ccount(s.last().1)
    }
}

/// Whether sibling names are distinct at every level of a forest.
pub open spec fn distinct_tree_seq(s: Seq<VerboseView>) -> bool
    decreases s,
{
    if s.len() == 0 {
        true
    } else {
        distinct_tree_seq(s.drop_last()) && distinct_tree_seq(s.last().nested) && (forall|i: int|
            0 <= i < s.len() - 1 ==> s[i].name != s.last().name)
    }
}

/// The compact transform of a forest has a key exactly for each node name of
/// the forest, duplicates collapsed.
pub proof fn lemma_compact_keys(s: Seq<VerboseView>, k: Seq<char>)
    ensures
        kv_has(compact_of(s), k) == (exists|i: int| 0 <= i < s.len() && s[i].name == k),
    decreases s,
{
    if s.len() > 0 {
        let prev = compact_of(s.drop_last());
        let cv = CompactView { data: s.last().data, nested: compact_of(s.last().nested) };
        lemma_compact_keys(s.drop_last(), k);
        lemma_kv_upsert_has(prev, s.last().name, cv, k);
        if kv_has(compact_of(s), k) {
            if k == s.last().name {
                assert(s[s.len() - 1].name == k);
            } else {
                let i = choose|i: int| 0 <= i < s.drop_last().len() && s.drop_last()[i].name == k;
                assert(s[i].name == k);
            }
        }
        if exists|i: int| 0 <= i < s.len() && s[i].name == k {
            let i = choose|i: int| 0 <= i < s.len() && s[i].name == k;
            if i < s.len() - 1 {
                assert(s.drop_last()[i].name == k);
            }
        }
    }
}

/// The compact transform always has unique keys at its top level.
pub proof fn lemma_compact_unique(s: Seq<VerboseView>)
    ensures
        kv_unique(compact_of(s)),
    decreases s,
{
    if s.len() > 0 {
        let prev = compact_of(s.drop_last());
        let cv = CompactView { data: s.last().data, nested: compact_of(s.last().nested) };
        lemma_compact_unique(s.drop_last());
        lemma_kv_upsert_unique(prev, s.last().name, cv);
    }
}

/// With distinct sibling names throughout, the compact transform of a forest
/// describes exactly as many nodes as the forest itself.
pub proof fn lemma_compact_count(s: Seq<VerboseView>)
    requires
        distinct_tree_seq(s),
    ensures
        ccount_seq(compact_of(s)) == vcount_seq(s),
    decreases s,
{
    if s.len() > 0 {
        let prev = compact_of(s.drop_last());
        let cv = CompactView { data: s.last().data, nested: compact_of(s.last().nested) };
        lemma_compact_count(s.drop_last());
        lemma_compact_count(s.last().nested);
        lemma_compact_keys(s.drop_last(), s.last().name);
        assert(!kv_has(prev, s.last().name)) by {
            if exists|i: int|
                0 <= i < s.drop_last().len() && s.drop_last()[i].name == s.last().name {
                let i = choose|i: int|
                    0 <= i < s.drop_last().len() && s.drop_last()[i].name == s.last().name;
                assert(s[i].name == s.last().name);
                assert(false);
            }
        }
        let t = prev.push((s.last().name, cv));
        assert(compact_of(s) == t);
        assert(t.drop_last() =~= prev);
        assert(ccount_seq(t) == ccount_seq(prev) + ccount(cv));
        assert(ccount(cv) == 1 + ccount_seq(compact_of(s.last().nested)));
        assert(vcount(s.last()) == 1 + vcount_seq(s.last().nested));
        assert(vcount_seq(s) == vcount_seq(s.drop_last()) + vcount(s.last()));
    }
}

/// With distinct sibling names throughout, every node of the forest is found
/// under its own name in the compact transform, measurements intact and
/// children compacted in turn.
pub proof fn lemma_compact_member(s: Seq<VerboseView>, i: int)
    requires
        distinct_tree_seq(s),
        0 <= i < s.len(),
    ensures
        kv_get(compact_of(s), s[i].name) == Some(
            CompactView { data: s[i].data, nested: compact_of(s[i].nested) },
        ),
    decreases s,
{
    let prev = compact_of(s.drop_last());
    let cv = CompactView { data: s.last().data, nested: compact_of(s.last().nested) };
    lemma_compact_unique(s.drop_last());
    lemma_kv_upsert_get(prev, s.last().name, cv, s[i].name);
    if i == s.len() - 1 {
        assert(kv_get(compact_of(s), s[i].name) == Some(cv));
    } else {
        assert(s[i].name != s.last().name);
        lemma_compact_member(s.drop_last(), i);
        assert(s.drop_last()[i] == s[i]);
    }
}

/// A row with indent level zero always becomes a new top-level node,
/// whatever the prior shape of the forest.
pub proof fn lemma_indent_zero_new_top_level(forest: Seq<VerboseView>, node: VerboseView)
    ensures
        forest_insert(forest, node, 0) == (Some(forest.push(node))),
{
}

/// The trimmed names of the indent-zero rows among the first `i` rows of the
/// grid, in row order.
pub open spec fn top_names(g: Seq<Seq<CellView>>, labels: Seq<Seq<char>>, i: int) -> Seq<Seq<char>>
    decreases i,
{
    if i <= 1 {
        Seq::empty()
    } else {
        let prev = top_names(g, labels, i - 1);
        match row_info(g[i - 1], labels) {
            Ok(info) => if info.1 == 0 {
                prev.push(info.0)
            } else {
                prev
            },
            Err(_) => prev,
        }
    }
}

/// Over a whole successful parse, an indent-zero row always starts a new
/// top-level node, whatever the depths of the rows around it: the forest has
/// exactly one top-level node per indent-zero row, in row order, each
/// bearing that row's trimmed name.
pub proof fn lemma_top_level_per_zero_row(g: Seq<Seq<CellView>>, labels: Seq<Seq<char>>, i: int)
    requires
        1 <= i,
        parse_upto(g, labels, i) is Ok,
    ensures
        (parse_upto(g, labels, i)->Ok_0).len() == top_names(g, labels, i).len(),
        forall|k: int| 0 <= k < top_names(g, labels, i).len() ==> (parse_upto(
            g,
            labels,
            i,
        )->Ok_0)[k].name == top_names(g, labels, i)[k],
    decreases i,
{
    if i > 1 {
        lemma_top_level_per_zero_row(g, labels, i - 1);
        let f = parse_upto(g, labels, i - 1)->Ok_0;
        let info = row_info(g[i - 1], labels)->Ok_0;
        let node = VerboseView { name: info.0, data: info.2, nested: Seq::empty() };
        let f2 = parse_upto(g, labels, i)->Ok_0;
        if info.1 == 0 {
            assert(f2 == f.push(node));
        } else {
            assert(f2 == f.update(f.len() - 1, inserted(f.last(), node, info.1)));
            assert(inserted(f.last(), node, info.1).name == f.last().name);
            assert forall|k: int| 0 <= k < top_names(g, labels, i).len() implies f2[k].name
                == top_names(g, labels, i)[k] by {
                assert(f2[k].name == f[k].name);
            }
        }
    }
}

/// A childless node absorbs exactly one skipped level: a node two levels
/// down attaches directly beneath it, while anything deeper has no branch to
/// anchor to.
pub proof fn lemma_depth_skip_tolerance(e: VerboseView, n: VerboseView, layers: nat)
    requires
        e.nested.len() == 0,
    ensures
        can_insert(e, 2),
        inserted(e, n, 2) == (VerboseView { name: e.name, data: e.data, nested: e.nested.push(n) }),
        layers >= 3 ==> !can_insert(e, layers),
{
}

} // verus!
