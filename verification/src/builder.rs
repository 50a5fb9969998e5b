//! The tree builder: attaches a freshly classified row to the rightmost open
//! branch of the forest at its indent depth, and the compact transform that
//! re-keys a verbose forest by name.

use vstd::prelude::*;

use crate::layout::CompactCollection;
use crate::layout::CompactEntry;
use crate::layout::CompactView;
use crate::layout::VerboseEntry;
use crate::layout::VerboseView;
use crate::layout::compact_view;
use crate::layout::kv_unique;
use crate::layout::kv_upsert;
use crate::layout::kv_view;
use crate::layout::lemma_compact_view_seq;
use crate::layout::lemma_verbose_view_seq;
use crate::layout::verbose_view;
use crate::layout::verbose_view_seq;

verus! {

/// Whether a new node can be attached `layers` levels below `e`: descent
/// follows the most recently appended child; a missing level is tolerated
/// exactly once (a node with no children accepts a grandchild, but nothing
/// deeper).
pub open spec fn can_insert(e: VerboseView, layers: nat) -> bool
    decreases layers,
{
    if layers <= 1 {
        true
    } else if e.nested.len() > 0 {
        can_insert(e.nested.last(), (layers - 1) as nat)
    } else {
        layers == 2
    }
}

/// The tree that results from attaching `n` at depth `layers` below `e`,
/// meaningful when `can_insert(e, layers)` holds.
pub open spec fn inserted(e: VerboseView, n: VerboseView, layers: nat) -> VerboseView
    decreases layers,
{
    if layers <= 1 || e.nested.len() == 0 {
        VerboseView { name: e.name, data: e.data, nested: e.nested.push(n) }
    } else {
        VerboseView {
            name: e.name,
            data: e.data,
            nested: e.nested.update(
                e.nested.len() - 1,
                inserted(e.nested.last(), n, (layers - 1) as nat),
            ),
        }
    }
}

/// Appending one node to a vector of nodes appends its model to the model
/// sequence.
pub proof fn lemma_verbose_view_seq_push(s: Seq<VerboseEntry>, e: VerboseEntry)
    ensures
        verbose_view_seq(s.push(e)) == verbose_view_seq(s).push(verbose_view(e)),
{
    assert(s.push(e).drop_last() =~= s);
    assert(s.push(e).last() == e);
}

/// Attach `row_entry` at depth `layers` below `mapped`, descending into the
/// most recently appended child at each level. A node with no children
/// absorbs exactly one skipped level.
pub fn insert_tree(mapped: &mut VerboseEntry, row_entry: VerboseEntry, layers: usize)
    requires
        1 <= layers,
        can_insert(old(mapped)@, layers as nat),
    ensures
        final(mapped)@ == inserted(old(mapped)@, row_entry@, layers as nat),
    decreases layers,
{
    proof {
        lemma_verbose_view_seq(mapped.nested@);
    }
    if layers == 1 || mapped.nested.len() == 0 {
        let ghost n0 = mapped.nested@;
        mapped.nested.push(row_entry);
        proof {
            lemma_verbose_view_seq_push(n0, row_entry);
        }
    } else {
        let ghost n0 = mapped.nested@;
        let mut last = mapped.nested.pop().unwrap();
        insert_tree(&mut last, row_entry, layers - 1);
        mapped.nested.push(last);
        proof {
            lemma_verbose_view_seq_push(n0.drop_last(), last);
            lemma_verbose_view_seq(n0);
            lemma_verbose_view_seq(n0.drop_last());
            assert(verbose_view_seq(n0.drop_last()).push(verbose_view(last))
                =~= verbose_view_seq(n0).update(
                n0.len() - 1,
                inserted(verbose_view(n0.last()), row_entry@, (layers - 1) as nat),
            ));
        }
    }
}

/// The compact transform of a forest model: each node's name becomes its key
/// in the parent mapping, later same-named siblings overwrite earlier ones.
pub open spec fn compact_of(s: Seq<VerboseView>) -> Seq<(Seq<char>, CompactView)>
    decreases s,
{
    if s.len() == 0 {
        Seq::empty()
    } else {
        kv_upsert(
            compact_of(s.drop_last()),
            s.last().name,
            CompactView { data: s.last().data, nested: compact_of(s.last().nested) },
        )
    }
}

/// Re-key a verbose forest by node name. The collection keeps the order in
/// which each name was first inserted; when two siblings share a name the
/// later one overwrites the earlier in place, so the result always has
/// unique keys at every level.
#[verifier::loop_isolation(false)]
pub fn create_compact_collection(verbose_entries: Vec<VerboseEntry>) -> (r: CompactCollection)
    ensures
        r@ == compact_of(verbose_view_seq(verbose_entries@)),
        kv_unique(r@),
    decreases verbose_entries@,
{
    let ghost orig = verbose_entries@;
    let mut rest = verbose_entries;
    let mut collection = CompactCollection { entries: Vec::new() };
    proof {
        assert(collection@ =~= Seq::<(Seq<char>, CompactView)>::empty());
        assert(orig.subrange(0, 0) =~= Seq::<VerboseEntry>::empty());
    }
    while rest.len() > 0
        invariant
            rest@.len() <= orig.len(),
            rest@ =~= orig.subrange(orig.len() - rest@.len(), orig.len() as int),
            collection@ == compact_of(
                verbose_view_seq(orig.subrange(0, orig.len() - rest@.len())),
            ),
            kv_unique(collection@),
        decreases rest@.len(),
    {
        let ghost k = orig.len() - rest@.len();
        let ghost prefix = orig.subrange(0, k);
        let entry = rest.remove(0);
        proof {
            assert(entry == orig[k]);
        }
        let VerboseEntry { name, data, nested } = entry;
        proof {
            assert(decreases_to!(orig => orig[k]));
            assert(decreases_to!(orig[k] => orig[k].nested));
            assert(decreases_to!(orig[k].nested => orig[k].nested@));
            assert(nested == orig[k].nested);
            assert(decreases_to!(orig => nested@));
        }
        let nested_collection = create_compact_collection(nested);
        let ce = CompactEntry { data, nested: nested_collection };
        proof {
            lemma_compact_view_seq(ce.nested.entries@);
            assert(compact_view(ce) == CompactView {
                data: kv_view(ce.data.entries@),
                nested: ce.nested@,
            });
        }
        collection.insert(name, ce);
        proof {
            assert(orig.subrange(0, k + 1) =~= prefix.push(orig[k]));
            lemma_verbose_view_seq_push(prefix, orig[k]);
            let vs = verbose_view_seq(prefix).push(verbose_view(orig[k]));
            assert(vs.drop_last() =~= verbose_view_seq(prefix));
            assert(rest@ =~= orig.subrange(orig.len() - rest@.len(), orig.len() as int));
        }
    }
    proof {
        assert(orig.subrange(0, orig.len() as int) =~= orig);
    }
    collection
}

} // verus!
