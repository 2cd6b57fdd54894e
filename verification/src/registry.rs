//! The Session Registry: the shared mapping from connection identity to a
//! live writer, and from identity to display name.
//!
//! Identities are the transport-level keys of sessions, unique for a
//! connection's lifetime; two sessions may share a display name, never an
//! identity. The registry keeps both mappings in insertion order, which is
//! the order fan-out and the roster listing walk them. The binary wraps one
//! registry in a read/write lock; every operation here is a plain value
//! transformation, so nothing below ever blocks.

use vstd::prelude::*;

verus! {

/// Keeps every identity other than `id`, in order.
pub open spec fn spec_drop_id(s: Seq<u64>, id: u64) -> Seq<u64>
    decreases s.len(),
{
    if s.len() == 0 {
        Seq::empty()
    } else if s.last() == id {
        spec_drop_id(s.drop_last(), id)
    } else {
        spec_drop_id(s.drop_last(), id).push(s.last())
    }
}

/// Keeps every name entry whose identity is not `id`, in order.
pub open spec fn spec_drop_entry(es: Seq<(u64, Seq<char>)>, id: u64) -> Seq<(u64, Seq<char>)>
    decreases es.len(),
{
    if es.len() == 0 {
        Seq::empty()
    } else if es.last().0 == id {
        spec_drop_entry(es.drop_last(), id)
    } else {
        spec_drop_entry(es.drop_last(), id).push(es.last())
    }
}

/// Keeps every identity not listed in `failed`, in order.
pub open spec fn spec_keep_ids(s: Seq<u64>, failed: Seq<u64>) -> Seq<u64>
    decreases s.len(),
{
    if s.len() == 0 {
        Seq::empty()
    } else if failed.contains(s.last()) {
        spec_keep_ids(s.drop_last(), failed)
    } else {
        spec_keep_ids(s.drop_last(), failed).push(s.last())
    }
}

/// Keeps every name entry whose identity is not listed in `failed`, in
/// order.
pub open spec fn spec_keep_entries(es: Seq<(u64, Seq<char>)>, failed: Seq<u64>) -> Seq<
    (u64, Seq<char>),
>
    decreases es.len(),
{
    if es.len() == 0 {
        Seq::empty()
    } else if failed.contains(es.last().0) {
        spec_keep_entries(es.drop_last(), failed)
    } else {
        spec_keep_entries(es.drop_last(), failed).push(es.last())
    }
}

/// What survives `spec_drop_id`: exactly the identities other than `id`,
/// each taken from the source.
pub proof fn lemma_drop_id_members(s: Seq<u64>, id: u64)
    ensures
        forall|k: int|
            0 <= k < spec_drop_id(s, id).len() ==> spec_drop_id(s, id)[k] != id && s.contains(
                spec_drop_id(s, id)[k],
            ),
        forall|x: u64| s.contains(x) && x != id ==> spec_drop_id(s, id).contains(x),
    decreases s.len(),
{
    if s.len() > 0 {
        lemma_drop_id_members(s.drop_last(), id);
        let r = spec_drop_id(s, id);
        let rr = spec_drop_id(s.drop_last(), id);
        assert forall|k: int| 0 <= k < r.len() implies r[k] != id && s.contains(r[k]) by {
            if s.last() != id && k == r.len() - 1 {
                assert(s[s.len() - 1] == s.last());
            } else {
                assert(r[k] == rr[k]);
                let a = choose|a: int| 0 <= a < s.drop_last().len() && s.drop_last()[a] == rr[k];
                assert(s[a] == rr[k]);
            }
        }
        assert forall|x: u64| s.contains(x) && x != id implies r.contains(x) by {
            let a = choose|a: int| 0 <= a < s.len() && s[a] == x;
            if a < s.len() - 1 {
                assert(s.drop_last()[a] == x);
                assert(s.drop_last().contains(x));
                assert(rr.contains(x));
                let b = choose|b: int| 0 <= b < rr.len() && rr[b] == x;
                assert(r[b] == x);
            } else {
                assert(s.last() == x);
                assert(r[r.len() - 1] == x);
            }
        }
    }
}

/// What survives `spec_drop_entry`: exactly the entries of other
/// identities, each taken from the source.
pub proof fn lemma_drop_entry_members(es: Seq<(u64, Seq<char>)>, id: u64)
    ensures
        forall|k: int|
            0 <= k < spec_drop_entry(es, id).len() ==> spec_drop_entry(es, id)[k].0 != id
                && es.contains(spec_drop_entry(es, id)[k]),
        forall|e: (u64, Seq<char>)|
            es.contains(e) && e.0 != id ==> spec_drop_entry(es, id).contains(e),
    decreases es.len(),
{
    if es.len() > 0 {
        lemma_drop_entry_members(es.drop_last(), id);
        let r = spec_drop_entry(es, id);
        let rr = spec_drop_entry(es.drop_last(), id);
        assert forall|k: int| 0 <= k < r.len() implies r[k].0 != id && es.contains(r[k]) by {
            if es.last().0 != id && k == r.len() - 1 {
                assert(es[es.len() - 1] == es.last());
            } else {
                assert(r[k] == rr[k]);
                let a = choose|a: int|
                    0 <= a < es.drop_last().len() && es.drop_last()[a] == rr[k];
                assert(es[a] == rr[k]);
            }
        }
        assert forall|e: (u64, Seq<char>)| es.contains(e) && e.0 != id implies r.contains(e) by {
            let a = choose|a: int| 0 <= a < es.len() && es[a] == e;
            if a < es.len() - 1 {
                assert(es.drop_last()[a] == e);
                assert(es.drop_last().contains(e));
                assert(rr.contains(e));
                let b = choose|b: int| 0 <= b < rr.len() && rr[b] == e;
                assert(r[b] == e);
            } else {
                assert(es.last() == e);
                assert(r[r.len() - 1] == e);
            }
        }
    }
}

/// What survives `spec_keep_ids`: exactly the identities not listed in
/// `failed`, each taken from the source.
pub proof fn lemma_keep_ids_members(s: Seq<u64>, failed: Seq<u64>)
    ensures
        forall|k: int|
            0 <= k < spec_keep_ids(s, failed).len() ==> !failed.contains(
                spec_keep_ids(s, failed)[k],
            ) && s.contains(spec_keep_ids(s, failed)[k]),
        forall|x: u64| s.contains(x) && !failed.contains(x) ==> spec_keep_ids(s, failed).contains(x),
    decreases s.len(),
{
    if s.len() > 0 {
        lemma_keep_ids_members(s.drop_last(), failed);
        let r = spec_keep_ids(s, failed);
        let rr = spec_keep_ids(s.drop_last(), failed);
        assert forall|k: int| 0 <= k < r.len() implies !failed.contains(r[k]) && s.contains(
            r[k],
        ) by {
            if !failed.contains(s.last()) && k == r.len() - 1 {
                assert(s[s.len() - 1] == s.last());
            } else {
                assert(r[k] == rr[k]);
                let a = choose|a: int| 0 <= a < s.drop_last().len() && s.drop_last()[a] == rr[k];
                assert(s[a] == rr[k]);
            }
        }
        assert forall|x: u64| s.contains(x) && !failed.contains(x) implies r.contains(x) by {
            let a = choose|a: int| 0 <= a < s.len() && s[a] == x;
            if a < s.len() - 1 {
                assert(s.drop_last()[a] == x);
                assert(s.drop_last().contains(x));
                assert(rr.contains(x));
                let b = choose|b: int| 0 <= b < rr.len() && rr[b] == x;
                assert(r[b] == x);
            } else {
                assert(s.last() == x);
                assert(r[r.len() - 1] == x);
            }
        }
    }
}

/// What survives `spec_keep_entries`: exactly the entries whose identities
/// are not listed in `failed`, each taken from the source.
pub proof fn lemma_keep_entries_members(es: Seq<(u64, Seq<char>)>, failed: Seq<u64>)
    ensures
        forall|k: int|
            0 <= k < spec_keep_entries(es, failed).len() ==> !failed.contains(
                spec_keep_entries(es, failed)[k].0,
            ) && es.contains(spec_keep_entries(es, failed)[k]),
        forall|e: (u64, Seq<char>)|
            es.contains(e) && !failed.contains(e.0) ==> spec_keep_entries(es, failed).contains(e),
    decreases es.len(),
{
    if es.len() > 0 {
        lemma_keep_entries_members(es.drop_last(), failed);
        let r = spec_keep_entries(es, failed);
        let rr = spec_keep_entries(es.drop_last(), failed);
        assert forall|k: int| 0 <= k < r.len() implies !failed.contains(r[k].0) && es.contains(
            r[k],
        ) by {
            if !failed.contains(es.last().0) && k == r.len() - 1 {
                assert(es[es.len() - 1] == es.last());
            } else {
                assert(r[k] == rr[k]);
                let a = choose|a: int|
                    0 <= a < es.drop_last().len() && es.drop_last()[a] == rr[k];
                assert(es[a] == rr[k]);
            }
        }
        assert forall|e: (u64, Seq<char>)|
            es.contains(e) && !failed.contains(e.0) implies r.contains(e) by {
            let a = choose|a: int| 0 <= a < es.len() && es[a] == e;
            if a < es.len() - 1 {
                assert(es.drop_last()[a] == e);
                assert(es.drop_last().contains(e));
                assert(rr.contains(e));
                let b = choose|b: int| 0 <= b < rr.len() && rr[b] == e;
                assert(r[b] == e);
            } else {
                assert(es.last() == e);
                assert(r[r.len() - 1] == e);
            }
        }
    }
}

/// The Session Registry: identities with a live writer, and identities with
/// a chosen display name, each kept in insertion order without duplicates.
pub struct SessionRegistry {
    writers: Vec<u64>,
    names: Vec<(u64, String)>,
}

impl SessionRegistry {
    /// The identities whose writers are registered, in insertion order.
    pub closed spec fn writer_ids(self) -> Seq<u64> {
        self.writers@
    }

    /// The identity-to-name entries, in insertion order.
    pub closed spec fn name_entries(self) -> Seq<(u64, Seq<char>)> {
        self.names@.map_values(|p: (u64, String)| (p.0, p.1@))
    }

    /// Whether some entry names the identity `id`.
    pub open spec fn spec_has_name(self, id: u64) -> bool {
        exists|i: int| 0 <= i < self.name_entries().len() && self.name_entries()[i].0 == id
    }

    /// No identity is registered twice, in either mapping.
    pub closed spec fn wf(self) -> bool {
        &&& forall|i: int, j: int|
            0 <= i < j < self.writers@.len() ==> self.writers@[i] != self.writers@[j]
        &&& forall|i: int, j: int|
            0 <= i < j < self.names@.len() ==> self.names@[i].0 != self.names@[j].0
    }

    /// An empty registry: no writers, no names.
    pub fn new() -> (r: Self)
        ensures
            r.wf(),
            r.writer_ids() == Seq::<u64>::empty(),
            r.name_entries() == Seq::<(u64, Seq<char>)>::empty(),
    {
        let r = SessionRegistry { writers: Vec::new(), names: Vec::new() };
        proof {
            assert(r.name_entries() =~= Seq::<(u64, Seq<char>)>::empty());
        }
        r
    }

    /// Whether `id` currently has a registered writer.
    pub fn has_writer(&self, id: u64) -> (r: bool)
        ensures
            r == self.writer_ids().contains(id),
    {
        let n = self.writers.len();
        let mut i: usize = 0;
        while i < n
            invariant
                n == self.writers@.len(),
                i <= n,
                forall|q: int| 0 <= q < i ==> self.writers@[q] != id,
            decreases n - i,
        {
            if self.writers[i] == id {
                return true;
            }
            i = i + 1;
        }
        false
    }

    /// Whether `id` already has a chosen display name.
    pub fn has_name(&self, id: u64) -> (r: bool)
        ensures
            r == self.spec_has_name(id),
    {
        let m = self.names.len();
        let mut j: usize = 0;
        while j < m
            invariant
                m == self.names@.len(),
                j <= m,
                forall|q: int| 0 <= q < j ==> self.names@[q].0 != id,
            decreases m - j,
        {
            if self.names[j].0 == id {
                proof {
                    assert(self.name_entries()[j as int].0 == id);
                }
                return true;
            }
            j = j + 1;
        }
        proof {
            assert forall|i: int|
                0 <= i < self.name_entries().len() implies self.name_entries()[i].0 != id by {
                assert(self.name_entries()[i] == (self.names@[i].0, self.names@[i].1@));
            }
        }
        false
    }

    /// Registers a writer for `id`. Registering an identity that already has
    /// one changes nothing: the mapping holds one entry per identity.
    pub fn register(&mut self, id: u64)
        requires
            old(self).wf(),
        ensures
            final(self).wf(),
            final(self).writer_ids() == if old(self).writer_ids().contains(id) {
                old(self).writer_ids()
            } else {
                old(self).writer_ids().push(id)
            },
            final(self).name_entries() == old(self).name_entries(),
    {
        if !self.has_writer(id) {
            self.writers.push(id);
            proof {
                assert forall|i: int, j: int|
                    0 <= i < j < self.writers@.len() implies self.writers@[i]
                    != self.writers@[j] by {
                    if j == self.writers@.len() - 1 {
                        assert(!old(self).writer_ids().contains(id));
                        assert(old(self).writer_ids()[i] != id);
                    }
                }
            }
        }
    }

    /// Chooses the display name of `id`. A name is chosen once, at the join
    /// handshake, and is immutable thereafter, so no entry for `id` exists
    /// yet.
    pub fn set_name(&mut self, id: u64, name: &str)
        requires
            old(self).wf(),
            !old(self).spec_has_name(id),
        ensures
            final(self).wf(),
            final(self).writer_ids() == old(self).writer_ids(),
            final(self).name_entries() == old(self).name_entries().push((id, name@)),
    {
        self.names.push((id, name.to_owned()));
        proof {
            assert(final(self).name_entries() =~= old(self).name_entries().push((id, name@)));
            assert forall|i: int, j: int|
                0 <= i < j < self.names@.len() implies self.names@[i].0 != self.names@[j].0 by {
                if j == self.names@.len() - 1 {
                    assert(old(self).name_entries()[i] == (old(self).names@[i].0, old(
                        self,
                    ).names@[i].1@));
                    assert(old(self).names@[i].0 != id);
                }
            }
        }
    }

    /// Removes `id` from both mappings. Removing an absent identity is a
    /// no-op, not an error.
    pub fn unregister(&mut self, id: u64)
        requires
            old(self).wf(),
        ensures
            final(self).wf(),
            final(self).writer_ids() == spec_drop_id(old(self).writer_ids(), id),
            final(self).name_entries() == spec_drop_entry(old(self).name_entries(), id),
    {
        let mut kept_w: Vec<u64> = Vec::new();
        let n = self.writers.len();
        let mut i: usize = 0;
        while i < n
            invariant
                n == self.writers@.len(),
                i <= n,
                kept_w@ == spec_drop_id(self.writers@.take(i as int), id),
            decreases n - i,
        {
            proof {
                assert(self.writers@.take(i + 1).drop_last() =~= self.writers@.take(i as int));
                assert(self.writers@.take(i + 1).last() == self.writers@[i as int]);
            }
            let w = self.writers[i];
            if w != id {
                kept_w.push(w);
            }
            i = i + 1;
        }
        proof {
            assert(self.writers@.take(n as int) =~= self.writers@);
        }
        self.writers = kept_w;

        let mut kept_n: Vec<(u64, String)> = Vec::new();
        let ghost entries = self.name_entries();
        let m = self.names.len();
        let mut j: usize = 0;
        while j < m
            invariant
                m == self.names@.len(),
                entries == self.names@.map_values(|p: (u64, String)| (p.0, p.1@)),
                j <= m,
                kept_n@.map_values(|p: (u64, String)| (p.0, p.1@)) == spec_drop_entry(
                    entries.take(j as int),
                    id,
                ),
            decreases m - j,
        {
            proof {
                assert(entries.take(j + 1).drop_last() =~= entries.take(j as int));
                assert(entries.take(j + 1).last() == entries[j as int]);
                assert(entries[j as int] == (self.names@[j as int].0, self.names@[j as int].1@));
            }
            let ghost pre = kept_n@;
            let eid = self.names[j].0;
            if eid != id {
                let nm = self.names[j].1.clone();
                kept_n.push((eid, nm));
                proof {
                    assert(kept_n@.map_values(|p: (u64, String)| (p.0, p.1@)) =~= pre.map_values(
                        |p: (u64, String)| (p.0, p.1@),
                    ).push((eid, self.names@[j as int].1@)));
                }
            }
            j = j + 1;
        }
        proof {
            assert(entries.take(m as int) =~= entries);
        }
        self.names = kept_n;
        proof {
            lemma_drop_id_members(old(self).writer_ids(), id);
            lemma_drop_entry_members(old(self).name_entries(), id);
            assert forall|a: int, b: int|
                0 <= a < b < self.writers@.len() implies self.writers@[a] != self.writers@[b] by {
                let s = old(self).writer_ids();
                let r = spec_drop_id(s, id);
                lemma_drop_id_distinct(s, id, a, b);
            }
            assert forall|a: int, b: int|
                0 <= a < b < self.names@.len() implies self.names@[a].0 != self.names@[b].0 by {
                let es = old(self).name_entries();
                let r = spec_drop_entry(es, id);
                lemma_drop_entry_distinct(es, id, a, b);
                assert(r[a] == (self.names@[a].0, self.names@[a].1@));
                assert(r[b] == (self.names@[b].0, self.names@[b].1@));
            }
        }
    }

    /// Removes every identity listed in `failed` from both mappings: the
    /// deferred pruning pass after a fan-out.
    pub fn prune(&mut self, failed: &Vec<u64>)
        requires
            old(self).wf(),
        ensures
            final(self).wf(),
            final(self).writer_ids() == spec_keep_ids(old(self).writer_ids(), failed@),
            final(self).name_entries() == spec_keep_entries(old(self).name_entries(), failed@),
    {
        let mut kept_w: Vec<u64> = Vec::new();
        let n = self.writers.len();
        let mut i: usize = 0;
        while i < n
            invariant
                n == self.writers@.len(),
                i <= n,
                kept_w@ == spec_keep_ids(self.writers@.take(i as int), failed@),
            decreases n - i,
        {
            proof {
                assert(self.writers@.take(i + 1).drop_last() =~= self.writers@.take(i as int));
                assert(self.writers@.take(i + 1).last() == self.writers@[i as int]);
            }
            let w = self.writers[i];
            if !contains_id(failed, w) {
                kept_w.push(w);
            }
            i = i + 1;
        }
        proof {
            assert(self.writers@.take(n as int) =~= self.writers@);
        }
        self.writers = kept_w;

        let mut kept_n: Vec<(u64, String)> = Vec::new();
        let ghost entries = self.name_entries();
        let m = self.names.len();
        let mut j: usize = 0;
        while j < m
            invariant
                m == self.names@.len(),
                entries == self.names@.map_values(|p: (u64, String)| (p.0, p.1@)),
                j <= m,
                kept_n@.map_values(|p: (u64, String)| (p.0, p.1@)) == spec_keep_entries(
                    entries.take(j as int),
                    failed@,
                ),
            decreases m - j,
        {
            proof {
                assert(entries.take(j + 1).drop_last() =~= entries.take(j as int));
                assert(entries.take(j + 1).last() == entries[j as int]);
                assert(entries[j as int] == (self.names@[j as int].0, self.names@[j as int].1@));
            }
            let ghost pre = kept_n@;
            let eid = self.names[j].0;
            if !contains_id(failed, eid) {
                let nm = self.names[j].1.clone();
                kept_n.push((eid, nm));
                proof {
                    assert(kept_n@.map_values(|p: (u64, String)| (p.0, p.1@)) =~= pre.map_values(
                        |p: (u64, String)| (p.0, p.1@),
                    ).push((eid, self.names@[j as int].1@)));
                }
            }
            j = j + 1;
        }
        proof {
            assert(entries.take(m as int) =~= entries);
        }
        self.names = kept_n;
        proof {
            assert forall|a: int, b: int|
                0 <= a < b < self.writers@.len() implies self.writers@[a] != self.writers@[b] by {
                lemma_keep_ids_distinct(old(self).writer_ids(), failed@, a, b);
            }
            assert forall|a: int, b: int|
                0 <= a < b < self.names@.len() implies self.names@[a].0 != self.names@[b].0 by {
                let es = old(self).name_entries();
                let r = spec_keep_entries(es, failed@);
                lemma_keep_entries_distinct(es, failed@, a, b);
                assert(r[a] == (self.names@[a].0, self.names@[a].1@));
                assert(r[b] == (self.names@[b].0, self.names@[b].1@));
            }
        }
    }

    /// The fan-out list for a broadcast from `sender`: every registered
    /// identity except the sender itself, in order.
    pub fn recipients_excluding(&self, sender: u64) -> (r: Vec<u64>)
        ensures
            r@ == spec_drop_id(self.writer_ids(), sender),
    {
        let mut out: Vec<u64> = Vec::new();
        let n = self.writers.len();
        let mut i: usize = 0;
        while i < n
            invariant
                n == self.writers@.len(),
                i <= n,
                out@ == spec_drop_id(self.writers@.take(i as int), sender),
            decreases n - i,
        {
            proof {
                assert(self.writers@.take(i + 1).drop_last() =~= self.writers@.take(i as int));
                assert(self.writers@.take(i + 1).last() == self.writers@[i as int]);
            }
            let w = self.writers[i];
            if w != sender {
                out.push(w);
            }
            i = i + 1;
        }
        proof {
            assert(self.writers@.take(n as int) =~= self.writers@);
        }
        out
    }

    /// A copy of the registered identities, in order: the fan-out snapshot.
    pub fn snapshot_writers(&self) -> (r: Vec<u64>)
        ensures
            r@ == self.writer_ids(),
    {
        let n = self.writers.len();
        let mut out: Vec<u64> = Vec::new();
        let mut i: usize = 0;
        while i < n
            invariant
                n == self.writers@.len(),
                i <= n,
                out@ == self.writers@.take(i as int),
            decreases n - i,
        {
            out.push(self.writers[i]);
            proof {
                assert(self.writers@.take(i + 1) =~= self.writers@.take(i as int).push(
                    self.writers@[i as int],
                ));
            }
            i = i + 1;
        }
        proof {
            assert(self.writers@.take(n as int) =~= self.writers@);
        }
        out
    }

    /// A copy of the display names, in insertion order: the roster snapshot.
    pub fn snapshot_names(&self) -> (r: Vec<String>)
        ensures
            r@.len() == self.name_entries().len(),
            forall|i: int| 0 <= i < r@.len() ==> r@[i]@ == self.name_entries()[i].1,
    {
        let m = self.names.len();
        let mut out: Vec<String> = Vec::new();
        let mut j: usize = 0;
        while j < m
            invariant
                m == self.names@.len(),
                j <= m,
                out@.len() == j,
                forall|q: int| 0 <= q < j ==> out@[q]@ == self.names@[q].1@,
            decreases m - j,
        {
            out.push(self.names[j].1.clone());
            j = j + 1;
        }
        out
    }
}

/// Whether `x` occurs in `v`.
pub fn contains_id(v: &Vec<u64>, x: u64) -> (r: bool)
    ensures
        r == v@.contains(x),
{
    let n = v.len();
    let mut i: usize = 0;
    while i < n
        invariant
            n == v@.len(),
            i <= n,
            forall|q: int| 0 <= q < i ==> v@[q] != x,
        decreases n - i,
    {
        if v[i] == x {
            return true;
        }
        i = i + 1;
    }
    false
}

/// Dropping an identity from a duplicate-free list leaves it duplicate-free.
proof fn lemma_drop_id_distinct(s: Seq<u64>, id: u64, a: int, b: int)
    requires
        forall|i: int, j: int| 0 <= i < j < s.len() ==> s[i] != s[j],
        0 <= a < b < spec_drop_id(s, id).len(),
    ensures
        spec_drop_id(s, id)[a] != spec_drop_id(s, id)[b],
    decreases s.len(),
{
    if s.len() > 0 {
        let r = spec_drop_id(s, id);
        let rr = spec_drop_id(s.drop_last(), id);
        if s.last() != id && b == r.len() - 1 {
            lemma_drop_id_members(s.drop_last(), id);
            assert(r[a] == rr[a]);
            let c = choose|c: int| 0 <= c < s.drop_last().len() && s.drop_last()[c] == rr[a];
            assert(s[c] == rr[a]);
            assert(s[s.len() - 1] == s.last());
        } else {
            lemma_drop_id_distinct(s.drop_last(), id, a, b);
        }
    }
}

/// Dropping an entry from a list with unique identities leaves the
/// identities unique.
proof fn lemma_drop_entry_distinct(es: Seq<(u64, Seq<char>)>, id: u64, a: int, b: int)
    requires
        forall|i: int, j: int| 0 <= i < j < es.len() ==> es[i].0 != es[j].0,
        0 <= a < b < spec_drop_entry(es, id).len(),
    ensures
        spec_drop_entry(es, id)[a].0 != spec_drop_entry(es, id)[b].0,
    decreases es.len(),
{
    if es.len() > 0 {
        let r = spec_drop_entry(es, id);
        let rr = spec_drop_entry(es.drop_last(), id);
        if es.last().0 != id && b == r.len() - 1 {
            lemma_drop_entry_members(es.drop_last(), id);
            assert(r[a] == rr[a]);
            let c = choose|c: int| 0 <= c < es.drop_last().len() && es.drop_last()[c] == rr[a];
            assert(es[c] == rr[a]);
            assert(es[es.len() - 1] == es.last());
        } else {
            lemma_drop_entry_distinct(es.drop_last(), id, a, b);
        }
    }
}

/// Pruning a duplicate-free identity list leaves it duplicate-free.
proof fn lemma_keep_ids_distinct(s: Seq<u64>, failed: Seq<u64>, a: int, b: int)
    requires
        forall|i: int, j: int| 0 <= i < j < s.len() ==> s[i] != s[j],
        0 <= a < b < spec_keep_ids(s, failed).len(),
    ensures
        spec_keep_ids(s, failed)[a] != spec_keep_ids(s, failed)[b],
    decreases s.len(),
{
    if s.len() > 0 {
        let r = spec_keep_ids(s, failed);
        let rr = spec_keep_ids(s.drop_last(), failed);
        if !failed.contains(s.last()) && b == r.len() - 1 {
            lemma_keep_ids_members(s.drop_last(), failed);
            assert(r[a] == rr[a]);
            let c = choose|c: int| 0 <= c < s.drop_last().len() && s.drop_last()[c] == rr[a];
            assert(s[c] == rr[a]);
            assert(s[s.len() - 1] == s.last());
        } else {
            lemma_keep_ids_distinct(s.drop_last(), failed, a, b);
        }
    }
}

/// Pruning a list of entries with unique identities leaves the identities
/// unique.
proof fn lemma_keep_entries_distinct(
    es: Seq<(u64, Seq<char>)>,
    failed: Seq<u64>,
    a: int,
    b: int,
)
    requires
        forall|i: int, j: int| 0 <= i < j < es.len() ==> es[i].0 != es[j].0,
        0 <= a < b < spec_keep_entries(es, failed).len(),
    ensures
        spec_keep_entries(es, failed)[a].0 != spec_keep_entries(es, failed)[b].0,
    decreases es.len(),
{
    if es.len() > 0 {
        let r = spec_keep_entries(es, failed);
        let rr = spec_keep_entries(es.drop_last(), failed);
        if !failed.contains(es.last().0) && b == r.len() - 1 {
            lemma_keep_entries_members(es.drop_last(), failed);
            assert(r[a] == rr[a]);
            let c = choose|c: int| 0 <= c < es.drop_last().len() && es.drop_last()[c] == rr[a];
            assert(es[c] == rr[a]);
            assert(es[es.len() - 1] == es.last());
        } else {
            lemma_keep_entries_distinct(es.drop_last(), failed, a, b);
        }
    }
}

} // verus!
