//! The connection registry: a mapping from session identifiers to connection
//! handles, together with the counter that allocates the identifiers.
//!
//! Identifiers start at 1, grow by one per registration, and are never reused
//! for the lifetime of the registry. A connection handle is an opaque number
//! chosen by the caller; the registry never interprets it.

use vstd::prelude::*;

verus! {

/// Holds of the entries that a removal of `id` keeps.
pub open spec fn keeps(id: u32) -> spec_fn((u32, u64)) -> bool {
    |p: (u32, u64)| p.0 != id
}

/// The entries of `s` whose identifier differs from `id`, in order.
pub open spec fn without_id(s: Seq<(u32, u64)>, id: u32) -> Seq<(u32, u64)> {
    s.filter(keeps(id))
}

/// Identifiers appear in strictly increasing order (hence are unique).
pub open spec fn ids_increasing(s: Seq<(u32, u64)>) -> bool {
    forall|i: int, j: int| 0 <= i < j < s.len() ==> (#[trigger] s[i]).0 < (#[trigger] s[j]).0
}

/// The set of currently live connections, keyed by session identifier.
pub struct Connections {
    counter: u32,
    entries: Vec<(u32, u64)>,
}

impl View for Connections {
    type V = Seq<(u32, u64)>;

    /// The registered (identifier, connection handle) pairs, in registration
    /// order.
    closed spec fn view(&self) -> Seq<(u32, u64)> {
        self.entries@
    }
}

impl Connections {
    /// The value of the identifier counter: the number of registrations that
    /// have ever happened, and the largest identifier ever handed out.
    pub closed spec fn counter(&self) -> u32 {
        self.counter
    }

    /// Every registered identifier is between 1 and the counter, and the
    /// identifiers are strictly increasing in registration order. This holds
    /// of every registry that can be built.
    #[verifier::type_invariant]
    pub open spec fn wf(&self) -> bool {
        &&& forall|i: int| 0 <= i < self@.len() ==> 1 <= (#[trigger] self@[i]).0 <= self.counter()
        &&& ids_increasing(self@)
    }

    /// An empty registry whose counter has allocated nothing yet.
    pub fn new() -> (r: Connections)
        ensures
            r@ == Seq::<(u32, u64)>::empty(),
            r.counter() == 0,
    {
        Connections { counter: 0, entries: Vec::new() }
    }

    /// The number of identifiers allocated so far: zero until the first
    /// registration, then the identifier handed out last.
    pub fn allocated(&self) -> (c: u32)
        ensures
            c == self.counter(),
    {
        self.counter
    }

    /// Allocates the next identifier, registers `conn` under it, and returns
    /// it. The identifier is one more than the previous one and differs from
    /// every identifier ever registered before.
    pub fn store(&mut self, conn: u64) -> (id: u32)
        requires
            old(self).counter() < u32::MAX,
        ensures
            id == old(self).counter() + 1,
            final(self).counter() == id,
            final(self)@ == old(self)@.push((id, conn)),
            forall|i: int| 0 <= i < old(self)@.len() ==> (#[trigger] old(self)@[i]).0 != id,
    {
        proof {
            use_type_invariant(&*self);
        }
        self.counter = self.counter + 1;
        let id = self.counter;
        let mut entries: Vec<(u32, u64)> = Vec::new();
        core::mem::swap(&mut entries, &mut self.entries);
        entries.push((id, conn));
        self.entries = entries;
        id
    }

    /// Removes the entry registered under `id`; does nothing if no entry
    /// carries that identifier. Never fails, and never touches the counter.
    pub fn remove(&mut self, id: u32)
        ensures
            final(self).counter() == old(self).counter(),
            final(self)@ == without_id(old(self)@, id),
    {
        proof {
            use_type_invariant(&*self);
        }
        let ghost s0 = self.entries@;
        let kept = entries_without(&self.entries, id);
        proof {
            lemma_without_id_subset(s0, id);
            lemma_without_id_increasing(s0, id);
            let f = without_id(s0, id);
            assert forall|i: int| 0 <= i < f.len() implies 1 <= (#[trigger] f[i]).0
                <= self.counter by {
                assert(f.contains(f[i]));
                assert(s0.contains(f[i]));
                let k = choose|k: int| 0 <= k < s0.len() && s0[k] == f[i];
                assert(1 <= s0[k].0 <= old(self).counter());
            }
        }
        self.entries = kept;
    }

    /// A snapshot of the registry for one broadcast: every currently
    /// registered (identifier, connection handle) pair, in registration
    /// order. Delivery to each pair is attempted independently of the others.
    pub fn broadcast(&self) -> (r: Vec<(u32, u64)>)
        ensures
            r@ == self@,
    {
        let mut r: Vec<(u32, u64)> = Vec::new();
        let mut i: usize = 0;
        while i < self.entries.len()
            invariant
                i <= self.entries.len(),
                r@ == self.entries@.take(i as int),
            decreases self.entries.len() - i,
        {
            r.push(self.entries[i]);
            proof {
                assert(self.entries@.take(i + 1 as int).drop_last() =~= self.entries@.take(
                    i as int,
                ));
                assert(r@ =~= self.entries@.take(i + 1 as int));
            }
            i = i + 1;
        }
        proof {
            assert(self.entries@.take(self.entries@.len() as int) =~= self.entries@);
        }
        r
    }
}

/// The entries of `entries` whose identifier differs from `id`, in order.
fn entries_without(entries: &Vec<(u32, u64)>, id: u32) -> (r: Vec<(u32, u64)>)
    ensures
        r@ == without_id(entries@, id),
{
    let mut r: Vec<(u32, u64)> = Vec::new();
    let mut i: usize = 0;
    proof {
        assert(entries@.take(0) =~= Seq::<(u32, u64)>::empty());
        reveal(Seq::filter);
    }
    while i < entries.len()
        invariant
            i <= entries.len(),
            r@ == without_id(entries@.take(i as int), id),
        decreases entries.len() - i,
    {
        let p = entries[i];
        proof {
            reveal(Seq::filter);
            assert(entries@.take(i + 1 as int).drop_last() =~= entries@.take(i as int));
            assert(entries@.take(i + 1 as int).last() == p);
        }
        if p.0 != id {
            r.push(p);
        }
        i = i + 1;
    }
    proof {
        assert(entries@.take(entries@.len() as int) =~= entries@);
    }
    r
}

/// Every entry that survives the removal of `id` was registered before it.
proof fn lemma_without_id_subset(s: Seq<(u32, u64)>, id: u32)
    ensures
        forall|x: (u32, u64)| #[trigger] without_id(s, id).contains(x) ==> s.contains(x),
    decreases s.len(),
{
    reveal(Seq::filter);
    if s.len() > 0 {
        let t = s.drop_last();
        lemma_without_id_subset(t, id);
        assert forall|x: (u32, u64)| #[trigger] without_id(s, id).contains(x) implies s.contains(
            x,
        ) by {
            if x == s.last() {
                assert(s[s.len() - 1] == x);
            } else {
                assert(without_id(t, id).contains(x));
                assert(t.contains(x));
                let i = choose|i: int| 0 <= i < t.len() && t[i] == x;
                assert(s[i] == x);
            }
        }
    }
}

/// Removing an identifier keeps the remaining identifiers in their strictly
/// increasing registration order.
proof fn lemma_without_id_increasing(s: Seq<(u32, u64)>, id: u32)
    requires
        ids_increasing(s),
    ensures
        ids_increasing(without_id(s, id)),
    decreases s.len(),
{
    reveal(Seq::filter);
    if s.len() > 0 {
        let t = s.drop_last();
        assert(ids_increasing(t)) by {
            assert forall|i: int, j: int| 0 <= i < j < t.len() implies (#[trigger] t[i]).0 < (
            #[trigger] t[j]).0 by {
                assert(s[i] == t[i] && s[j] == t[j]);
            }
        }
        lemma_without_id_increasing(t, id);
        lemma_without_id_subset(t, id);
        let f = without_id(s, id);
        let ft = without_id(t, id);
        if s.last().0 != id {
            assert(f == ft.push(s.last()));
            assert forall|i: int, j: int| 0 <= i < j < f.len() implies (#[trigger] f[i]).0 < (
            #[trigger] f[j]).0 by {
                if j < ft.len() {
                    assert(f[i] == ft[i] && f[j] == ft[j]);
                } else {
                    assert(f[j] == s.last());
                    assert(ft.contains(ft[i]));
                    assert(t.contains(ft[i]));
                    let k = choose|k: int| 0 <= k < t.len() && t[k] == ft[i];
                    assert(s[k] == ft[i]);
                    assert(s[k].0 < s.last().0);
                    assert(f[i] == ft[i]);
                }
            }
        }
    }
}

/// A sequence all of whose entries avoid `id` is left whole by removing `id`.
pub proof fn lemma_remove_absent(s: Seq<(u32, u64)>, id: u32)
    requires
        forall|i: int| 0 <= i < s.len() ==> (#[trigger] s[i]).0 != id,
    ensures
        without_id(s, id) == s,
    decreases s.len(),
{
    reveal(Seq::filter);
    if s.len() == 0 {
        assert(without_id(s, id) =~= s);
    } else {
        let t = s.drop_last();
        assert(forall|i: int| 0 <= i < t.len() ==> (#[trigger] t[i]).0 != id) by {
            assert(forall|i: int| 0 <= i < t.len() ==> t[i] == s[i]);
        }
        lemma_remove_absent(t, id);
        assert(s.last().0 != id);
        assert(without_id(s, id) =~= s);
    }
}

/// Deregistering an identifier twice leaves the same registry as
/// deregistering it once: the second removal is a no-op.
pub proof fn lemma_remove_idempotent(s: Seq<(u32, u64)>, id: u32)
    ensures
        without_id(without_id(s, id), id) == without_id(s, id),
{
    let f = without_id(s, id);
    assert forall|i: int| 0 <= i < f.len() implies (#[trigger] f[i]).0 != id by {
        s.lemma_filter_pred(keeps(id), i);
    }
    lemma_remove_absent(f, id);
}

/// Removing an identifier removes exactly its own entries from the broadcast
/// snapshot: no entry for `id` survives, every entry for any other
/// identifier survives, and nothing new appears.
pub proof fn lemma_remove_isolates(s: Seq<(u32, u64)>, id: u32)
    ensures
        forall|i: int| 0 <= i < without_id(s, id).len() ==> (#[trigger] without_id(s, id)[i]).0
            != id,
        forall|i: int|
            0 <= i < s.len() && (#[trigger] s[i]).0 != id ==> without_id(s, id).contains(s[i]),
        forall|x: (u32, u64)| #[trigger] without_id(s, id).contains(x) ==> s.contains(x),
{
    assert forall|i: int| 0 <= i < without_id(s, id).len() implies (#[trigger] without_id(
        s,
        id,
    )[i]).0 != id by {
        s.lemma_filter_pred(keeps(id), i);
    }
    assert forall|i: int|
        0 <= i < s.len() && (#[trigger] s[i]).0 != id implies without_id(s, id).contains(
        s[i],
    ) by {
        s.lemma_filter_contains(keeps(id), i);
    }
    lemma_without_id_subset(s, id);
}

/// In a well-formed registry every identifier is at most the counter, so the
/// identifier the next registration allocates is fresh: larger than, and
/// distinct from, every registered one.
pub proof fn lemma_next_id_fresh(r: &Connections)
    requires
        r.wf(),
        r.counter() < u32::MAX,
    ensures
        forall|i: int| 0 <= i < r@.len() ==> (#[trigger] r@[i]).0 < r.counter() + 1,
{
}

/// Identifiers are handed out in strictly increasing registration order, so
/// no two registered connections ever share one.
pub proof fn lemma_ids_unique(r: &Connections)
    requires
        r.wf(),
    ensures
        forall|i: int, j: int| 0 <= i < j < r@.len() ==> (#[trigger] r@[i]).0 != (
        #[trigger] r@[j]).0,
{
}

} // verus!
