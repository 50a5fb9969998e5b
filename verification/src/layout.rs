//! The two tree models: verbose nodes that carry their own name, and compact
//! entries keyed by name in their parent's mapping.

use vstd::prelude::*;

verus! {

/// A single named measurement taken from one cell of a data row.
#[derive(Clone, Debug)]
pub struct NeighbourhoodPoint {
    pub name: String,
    pub value: i64,
}

/// A name-to-value mapping kept in insertion order. Inserting an existing
/// name overwrites its value in place (last write wins).
#[derive(Clone, Debug)]
pub struct NeighbourhoodPoints {
    pub entries: Vec<(String, i64)>,
}

/// One node of the verbose tree: it carries its own name, its measurements,
/// and its child subtrees in the order the rows introduced them.
#[derive(Debug)]
pub struct VerboseEntry {
    pub name: String,
    pub data: NeighbourhoodPoints,
    pub nested: Vec<VerboseEntry>,
}

/// One node of the compact tree: its name lives in the parent's mapping.
#[derive(Debug)]
pub struct CompactEntry {
    pub data: NeighbourhoodPoints,
    pub nested: CompactCollection,
}

/// A name-keyed mapping of compact nodes, kept in insertion order with
/// unique names.
#[derive(Debug)]
pub struct CompactCollection {
    pub entries: Vec<(String, CompactEntry)>,
}

/// Mathematical model of a verbose node.
pub struct VerboseView {
    pub name: Seq<char>,
    pub data: Seq<(Seq<char>, i64)>,
    pub nested: Seq<VerboseView>,
}

/// Mathematical model of a compact node.
pub struct CompactView {
    pub data: Seq<(Seq<char>, i64)>,
    pub nested: Seq<(Seq<char>, CompactView)>,
}

/// The view of a sequence of keyed pairs: each key replaced by its
/// character sequence.
pub open spec fn kv_view<V>(entries: Seq<(String, V)>) -> Seq<(Seq<char>, V)> {
    entries.map(|i: int, p: (String, V)| (p.0@, p.1))
}

/// Whether some pair in `s` has key `k`.
pub open spec fn kv_has<V>(s: Seq<(Seq<char>, V)>, k: Seq<char>) -> bool {
    exists|i: int| 0 <= i < s.len() && s[i].0 == k
}

/// All keys in `s` are distinct.
pub open spec fn kv_unique<V>(s: Seq<(Seq<char>, V)>) -> bool {
    forall|i: int, j: int| 0 <= i < j < s.len() ==> s[i].0 != s[j].0
}

/// The index of the pair with key `k` (meaningful when keys are unique and
/// `k` is present).
pub open spec fn kv_index<V>(s: Seq<(Seq<char>, V)>, k: Seq<char>) -> int {
    choose|i: int| 0 <= i < s.len() && s[i].0 == k
}

/// The value bound to `k`, if any.
pub open spec fn kv_get<V>(s: Seq<(Seq<char>, V)>, k: Seq<char>) -> Option<V> {
    if kv_has(s, k) {
        Some(s[kv_index(s, k)].1)
    } else {
        None
    }
}

/// Insert with last-write-wins semantics: an existing key is overwritten in
/// place, a new key is appended at the end.
pub open spec fn kv_upsert<V>(s: Seq<(Seq<char>, V)>, k: Seq<char>, v: V) -> Seq<(Seq<char>, V)> {
    if kv_has(s, k) {
        s.update(kv_index(s, k), (k, v))
    } else {
        s.push((k, v))
    }
}

/// Inserting binds exactly the inserted key, and leaves every other key's
/// presence unchanged.
pub proof fn lemma_kv_upsert_has<V>(s: Seq<(Seq<char>, V)>, k: Seq<char>, v: V, k2: Seq<char>)
    ensures
        kv_has(kv_upsert(s, k, v), k2) == (k2 == k || kv_has(s, k2)),
{
    let t = kv_upsert(s, k, v);
    if kv_has(s, k) {
        let i = kv_index(s, k);
        assert(s[i].0 == k);
        if k2 == k {
            assert(t[i].0 == k2);
        } else {
            if kv_has(s, k2) {
                let j = kv_index(s, k2);
                assert(s[j].0 == k2);
                assert(t[j].0 == k2);
            }
            if kv_has(t, k2) {
                let j = choose|j: int| 0 <= j < t.len() && t[j].0 == k2;
                assert(s[j].0 == k2);
            }
        }
    } else {
        if k2 == k {
            assert(t[s.len() as int].0 == k2);
        } else {
            if kv_has(s, k2) {
                let j = kv_index(s, k2);
                assert(s[j].0 == k2);
                assert(t[j].0 == k2);
            }
            if kv_has(t, k2) {
                let j = choose|j: int| 0 <= j < t.len() && t[j].0 == k2;
                assert(s[j].0 == k2);
            }
        }
    }
}

/// Inserting into a uniquely keyed mapping keeps the keys unique.
pub proof fn lemma_kv_upsert_unique<V>(s: Seq<(Seq<char>, V)>, k: Seq<char>, v: V)
    requires
        kv_unique(s),
    ensures
        kv_unique(kv_upsert(s, k, v)),
{
    let t = kv_upsert(s, k, v);
    if kv_has(s, k) {
        let i = kv_index(s, k);
        assert(s[i].0 == k);
        assert forall|a: int, b: int| 0 <= a < b < t.len() implies t[a].0 != t[b].0 by {
            assert(t[a].0 == s[a].0);
            assert(t[b].0 == s[b].0);
        }
    } else {
        assert forall|a: int, b: int| 0 <= a < b < t.len() implies t[a].0 != t[b].0 by {
            if b < s.len() {
                assert(t[a].0 == s[a].0);
                assert(t[b].0 == s[b].0);
            } else {
                assert(t[a].0 == s[a].0);
                assert(s[a].0 != k);
                assert(t[b].0 == k);
            }
        }
    }
}

/// What a lookup finds after an insertion: the inserted value under the
/// inserted key, and the old binding under every other key.
pub proof fn lemma_kv_upsert_get<V>(s: Seq<(Seq<char>, V)>, k: Seq<char>, v: V, k2: Seq<char>)
    requires
        kv_unique(s),
    ensures
        kv_get(kv_upsert(s, k, v), k2) == if k2 == k {
            Some(v)
        } else {
            kv_get(s, k2)
        },
{
    let t = kv_upsert(s, k, v);
    lemma_kv_upsert_has(s, k, v, k2);
    lemma_kv_upsert_unique(s, k, v);
    if k2 == k {
        if kv_has(s, k) {
            let i = kv_index(s, k);
            assert(s[i].0 == k);
            assert(t[i] == (k, v));
            let w = kv_index(t, k);
            assert(t[w].0 == k);
            if w != i {
                assert(s[w].0 == k);
                assert(false);
            }
        } else {
            let n = s.len() as int;
            assert(t[n] == (k, v));
            let w = kv_index(t, k);
            assert(t[w].0 == k);
            if w != n {
                assert(s[w].0 == k);
                assert(false);
            }
        }
    } else {
        if kv_has(s, k2) {
            let j = kv_index(s, k2);
            assert(s[j].0 == k2);
            if kv_has(s, k) {
                let i = kv_index(s, k);
                assert(s[i].0 == k);
                assert(j != i);
                assert(t[j] == s[j]);
            } else {
                assert(t[j] == s[j]);
            }
            let w = kv_index(t, k2);
            assert(t[w].0 == k2);
            if w != j {
                assert(t[j].0 == k2);
                assert(false);
            }
        }
    }
}

impl View for NeighbourhoodPoints {
    type V = Seq<(Seq<char>, i64)>;

    open spec fn view(&self) -> Seq<(Seq<char>, i64)> {
        kv_view(self.entries@)
    }
}

impl NeighbourhoodPoints {
    /// An empty mapping.
    pub fn new() -> (r: Self)
        ensures
            r@ == Seq::<(Seq<char>, i64)>::empty(),
    {
        let r = NeighbourhoodPoints { entries: Vec::new() };
        proof {
            assert(r@ =~= Seq::<(Seq<char>, i64)>::empty());
        }
        r
    }

    /// Bind `name` to `value`, overwriting in place if `name` is present.
    pub fn insert(&mut self, name: String, value: i64)
        requires
            kv_unique(old(self)@),
        ensures
            final(self)@ == kv_upsert(old(self)@, name@, value),
            kv_unique(final(self)@),
    {
        let ghost s0 = self@;
        let ghost e0 = self.entries@;
        let ghost nm = name@;
        match find_key(&self.entries, &name) {
            Some(i) => {
                self.entries[i] = (name, value);
                proof {
                    assert(s0[i as int].0 == nm);
                    assert(kv_has(s0, nm));
                    let w = kv_index(s0, nm);
                    assert(s0[w].0 == nm);
                    assert(w == i as int);
                    assert(self@ =~= kv_upsert(s0, nm, value));
                    assert forall|a: int, b: int| 0 <= a < b < self@.len() implies self@[a].0
                        != self@[b].0 by {
                        assert(self@[a].0 == s0[a].0);
                        assert(self@[b].0 == s0[b].0);
                    }
                }
            },
            None => {
                self.entries.push((name, value));
                proof {
                    assert(!kv_has(s0, nm)) by {
                        assert forall|j: int| 0 <= j < s0.len() implies s0[j].0 != nm by {
                            assert(s0[j].0 == e0[j].0@);
                        }
                    }
                    assert(self@ =~= kv_upsert(s0, nm, value));
                    assert forall|a: int, b: int| 0 <= a < b < self@.len() implies self@[a].0
                        != self@[b].0 by {
                        if b < s0.len() {
                            assert(self@[a].0 == s0[a].0);
                            assert(self@[b].0 == s0[b].0);
                        } else {
                            assert(self@[a].0 == s0[a].0);
                            assert(s0[a].0 != nm);
                            assert(self@[b].0 == nm);
                        }
                    }
                }
            },
        }
    }
}

/// The index of the first pair in `entries` whose key equals `name`, if any.
fn find_key<V>(entries: &Vec<(String, V)>, name: &String) -> (r: Option<usize>)
    ensures
        match r {
            Some(i) => i < entries.len() && entries[i as int].0@ == name@,
            None => forall|j: int| 0 <= j < entries.len() ==> entries[j].0@ != name@,
        },
{
    let n = entries.len();
    let mut i: usize = 0;
    while i < n
        invariant
            i <= n,
            n == entries.len(),
            forall|j: int| 0 <= j < i ==> entries[j].0@ != name@,
        decreases n - i,
    {
        if entries[i].0 == *name {
            return Some(i);
        }
        i += 1;
    }
    None
}

/// The model of a verbose node.
pub open spec fn verbose_view(e: VerboseEntry) -> VerboseView
    decreases e,
{
    VerboseView {
        name: e.name@,
        data: kv_view(e.data.entries@),
        nested: verbose_view_seq(e.nested@),
    }
}

/// The models of a sequence of verbose nodes, in order.
pub open spec fn verbose_view_seq(s: Seq<VerboseEntry>) -> Seq<VerboseView>
    decreases s,
{
    if s.len() == 0 {
        Seq::empty()
    } else {
        verbose_view_seq(s.drop_last()).push(verbose_view(s.last()))
    }
}

/// `verbose_view_seq` maps `verbose_view` over the sequence, element by
/// element.
pub proof fn lemma_verbose_view_seq(s: Seq<VerboseEntry>)
    ensures
        verbose_view_seq(s).len() == s.len(),
        forall|i: int| 0 <= i < s.len() ==> verbose_view_seq(s)[i] == verbose_view(s[i]),
    decreases s,
{
    if s.len() > 0 {
        lemma_verbose_view_seq(s.drop_last());
    }
}

impl View for VerboseEntry {
    type V = VerboseView;

    open spec fn view(&self) -> VerboseView {
        verbose_view(*self)
    }
}

impl VerboseEntry {
    /// A fresh node with the given name, no measurements, no children.
    pub fn new(name: &str) -> (r: Self)
        ensures
            r@.name == name@,
            r@.data == Seq::<(Seq<char>, i64)>::empty(),
            r@.nested == Seq::<VerboseView>::empty(),
    {
        let r = VerboseEntry { name: name.to_owned(), data: NeighbourhoodPoints::new(), nested: Vec::new() };
        proof {
            assert(r@.data =~= Seq::<(Seq<char>, i64)>::empty());
            assert(r@.nested =~= Seq::<VerboseView>::empty());
        }
        r
    }

    /// The node's own display name.
    pub fn get_name(self) -> (r: String)
        ensures
            r@ == self@.name,
    {
        self.name
    }
}

/// The model of a compact node.
pub open spec fn compact_view(e: CompactEntry) -> CompactView
    decreases e,
{
    CompactView { data: kv_view(e.data.entries@), nested: compact_view_seq(e.nested.entries@) }
}

/// The models of a sequence of named compact nodes, in order.
pub open spec fn compact_view_seq(s: Seq<(String, CompactEntry)>) -> Seq<(Seq<char>, CompactView)>
    decreases s,
{
    if s.len() == 0 {
        Seq::empty()
    } else {
        compact_view_seq(s.drop_last()).push((s.last().0@, compact_view(s.last().1)))
    }
}

/// `compact_view_seq` maps `compact_view` over the pairs, element by element.
pub proof fn lemma_compact_view_seq(s: Seq<(String, CompactEntry)>)
    ensures
        compact_view_seq(s).len() == s.len(),
        forall|i: int| 0 <= i < s.len() ==> compact_view_seq(s)[i] == (
            s[i].0@,
            compact_view(s[i].1),
        ),
    decreases s,
{
    if s.len() > 0 {
        lemma_compact_view_seq(s.drop_last());
    }
}

impl View for CompactEntry {
    type V = CompactView;

    open spec fn view(&self) -> CompactView {
        compact_view(*self)
    }
}

impl View for CompactCollection {
    type V = Seq<(Seq<char>, CompactView)>;

    open spec fn view(&self) -> Seq<(Seq<char>, CompactView)> {
        compact_view_seq(self.entries@)
    }
}

impl CompactCollection {
    /// An empty collection.
    pub fn new() -> (r: Self)
        ensures
            r@ == Seq::<(Seq<char>, CompactView)>::empty(),
    {
        let r = CompactCollection { entries: Vec::new() };
        proof {
            assert(r@ =~= Seq::<(Seq<char>, CompactView)>::empty());
        }
        r
    }

    /// Bind `name` to `value`, overwriting in place if `name` is present.
    pub fn insert(&mut self, name: String, value: CompactEntry)
        requires
            kv_unique(old(self)@),
        ensures
            final(self)@ == kv_upsert(old(self)@, name@, value@),
            kv_unique(final(self)@),
    {
        let ghost s0 = self@;
        let ghost e0 = self.entries@;
        let ghost nm = name@;
        proof {
            lemma_compact_view_seq(e0);
        }
        match find_key(&self.entries, &name) {
            Some(i) => {
                self.entries[i] = (name, value);
                proof {
                    lemma_compact_view_seq(self.entries@);
                    assert(s0[i as int].0 == nm);
                    assert(kv_has(s0, nm));
                    let w = kv_index(s0, nm);
                    assert(s0[w].0 == nm);
                    assert(w == i as int);
                    assert(self@ =~= kv_upsert(s0, nm, compact_view(value)));
                    assert forall|a: int, b: int| 0 <= a < b < self@.len() implies self@[a].0
                        != self@[b].0 by {
                        assert(self@[a].0 == s0[a].0);
                        assert(self@[b].0 == s0[b].0);
                    }
                }
            },
            None => {
                self.entries.push((name, value));
                proof {
                    lemma_compact_view_seq(self.entries@);
                    assert(!kv_has(s0, nm)) by {
                        assert forall|j: int| 0 <= j < s0.len() implies s0[j].0 != nm by {
                            assert(s0[j].0 == e0[j].0@);
                        }
                    }
                    assert(self@ =~= kv_upsert(s0, nm, compact_view(value)));
                    assert forall|a: int, b: int| 0 <= a < b < self@.len() implies self@[a].0
                        != self@[b].0 by {
                        if b < s0.len() {
                            assert(self@[a].0 == s0[a].0);
                            assert(self@[b].0 == s0[b].0);
                        } else {
                            assert(self@[a].0 == s0[a].0);
                            assert(s0[a].0 != nm);
                            assert(self@[b].0 == nm);
                        }
                    }
                }
            },
        }
    }
}

} // verus!
