//! The shim registry: the durable mapping from a logical command name to the
//! installed binary it forwards to and the backend that installed it. The
//! registry is modelled as a map keyed by shim name; adding is an
//! unconditional upsert (last write wins) and removing a missing name is a
//! no-op. Reading and writing the on-disk snapshot happens at the program
//! edge, outside this module.

use vstd::prelude::*;

use crate::strutil::str_eq;

verus! {

/// One registered shim: the logical command name, the path of the binary it
/// forwards to, the backend that installed the package, and the creation
/// time in non-leap seconds since the Unix epoch.
#[derive(Debug)]
pub struct ShimEntry {
    /// Name of the shim (the logical command name).
    pub name: String,
    /// Path of the actual binary, as text.
    pub target: String,
    /// Identifier of the backend that installed the package.
    pub installed_by: String,
    /// When the shim was created, in seconds since the Unix epoch.
    pub created_at: i64,
}

/// The mathematical image of one shim entry.
pub ghost struct ShimEntryV {
    pub name: Seq<char>,
    pub target: Seq<char>,
    pub installed_by: Seq<char>,
    pub created_at: int,
}

impl View for ShimEntry {
    type V = ShimEntryV;

    open spec fn view(&self) -> ShimEntryV {
        ShimEntryV {
            name: self.name@,
            target: self.target@,
            installed_by: self.installed_by@,
            created_at: self.created_at as int,
        }
    }
}

/// The map described by a sequence of entries, later entries shadowing
/// earlier ones of the same name.
pub open spec fn map_of(s: Seq<ShimEntry>) -> Map<Seq<char>, ShimEntryV>
    decreases s.len(),
{
    if s.len() == 0 {
        Map::<Seq<char>, ShimEntryV>::empty()
    } else {
        map_of(s.drop_last()).insert(s.last().name@, s.last()@)
    }
}

/// Registry of all shims, keyed by shim name.
#[derive(Debug)]
pub struct ShimRegistry {
    entries: Vec<ShimEntry>,
}

impl View for ShimRegistry {
    type V = Map<Seq<char>, ShimEntryV>;

    closed spec fn view(&self) -> Map<Seq<char>, ShimEntryV> {
        map_of(self.entries@)
    }
}

/// Relies on chrono's `Utc::now` and `DateTime::timestamp` for the system
/// clock, read as seconds since the Unix epoch; nothing is assumed of the
/// value.
#[verifier::external_body]
fn now_unix() -> i64 {
    chrono::Utc::now().timestamp()
}

proof fn lemma_map_of_dom(s: Seq<ShimEntry>)
    ensures
        map_of(s).dom().finite(),
        forall|k: Seq<char>|
            #[trigger] map_of(s).contains_key(k) <==> exists|i: int|
                0 <= i < s.len() && s[i].name@ == k,
    decreases s.len(),
{
    if s.len() > 0 {
        lemma_map_of_dom(s.drop_last());
        assert forall|k: Seq<char>| #[trigger]
            map_of(s).contains_key(k) implies exists|i: int|
            0 <= i < s.len() && s[i].name@ == k by {
            if k == s.last().name@ {
                assert(s[s.len() - 1].name@ == k);
            } else {
                let i = choose|i: int| 0 <= i < s.drop_last().len() && s.drop_last()[i].name@ == k;
                assert(s[i].name@ == k);
            }
        }
        assert forall|k: Seq<char>|
            (exists|i: int| 0 <= i < s.len() && s[i].name@ == k) implies #[trigger] map_of(
            s,
        ).contains_key(k) by {
            let i = choose|i: int| 0 <= i < s.len() && s[i].name@ == k;
            if i < s.len() - 1 {
                assert(s.drop_last()[i].name@ == k);
            }
        }
    }
}

proof fn lemma_map_of_index(s: Seq<ShimEntry>, i: int)
    requires
        forall|p: int, q: int| 0 <= p < q < s.len() ==> s[p].name@ != s[q].name@,
        0 <= i < s.len(),
    ensures
        map_of(s).contains_key(s[i].name@),
        map_of(s)[s[i].name@] == s[i]@,
    decreases s.len(),
{
    lemma_map_of_dom(s);
    if i == s.len() - 1 {
    } else {
        lemma_map_of_index(s.drop_last(), i);
        assert(s.drop_last()[i] == s[i]);
        assert(s[i].name@ != s.last().name@);
    }
}

proof fn lemma_map_of_len(s: Seq<ShimEntry>)
    requires
        forall|p: int, q: int| 0 <= p < q < s.len() ==> s[p].name@ != s[q].name@,
    ensures
        map_of(s).dom().finite(),
        map_of(s).dom().len() == s.len(),
    decreases s.len(),
{
    lemma_map_of_dom(s);
    if s.len() > 0 {
        lemma_map_of_len(s.drop_last());
        lemma_map_of_dom(s.drop_last());
        assert(!map_of(s.drop_last()).contains_key(s.last().name@)) by {
            if map_of(s.drop_last()).contains_key(s.last().name@) {
                let i = choose|i: int|
                    0 <= i < s.drop_last().len() && s.drop_last()[i].name@ == s.last().name@;
                assert(s[i].name@ == s[s.len() - 1].name@);
            }
        }
        assert(map_of(s).dom() =~= map_of(s.drop_last()).dom().insert(s.last().name@));
    }
}

proof fn lemma_map_of_remove(s: Seq<ShimEntry>, i: int)
    requires
        forall|p: int, q: int| 0 <= p < q < s.len() ==> s[p].name@ != s[q].name@,
        0 <= i < s.len(),
    ensures
        map_of(s.subrange(0, i) + s.subrange(i + 1, s.len() as int)) == map_of(s).remove(
            s[i].name@,
        ),
    decreases s.len(),
{
    lemma_map_of_dom(s.drop_last());
    let r = s.subrange(0, i) + s.subrange(i + 1, s.len() as int);
    if i == s.len() - 1 {
        assert(r =~= s.drop_last());
        assert(!map_of(s.drop_last()).contains_key(s.last().name@)) by {
            if map_of(s.drop_last()).contains_key(s.last().name@) {
                let j = choose|j: int|
                    0 <= j < s.drop_last().len() && s.drop_last()[j].name@ == s.last().name@;
                assert(s[j].name@ == s[s.len() - 1].name@);
            }
        }
        assert(map_of(s).remove(s[i].name@) =~= map_of(s.drop_last()));
    } else {
        let dl = s.drop_last();
        assert forall|p: int, q: int| 0 <= p < q < dl.len() implies dl[p].name@ != dl[q].name@ by {
            assert(s[p].name@ != s[q].name@);
        }
        lemma_map_of_remove(dl, i);
        assert(r.drop_last() =~= dl.subrange(0, i) + dl.subrange(i + 1, dl.len() as int));
        assert(r.last() == s.last());
        assert(dl[i] == s[i]);
        assert(s[i].name@ != s.last().name@);
        assert(map_of(r) == map_of(dl).remove(s[i].name@).insert(s.last().name@, s.last()@));
        assert(map_of(s).remove(s[i].name@) =~= map_of(dl).remove(s[i].name@).insert(
            s.last().name@,
            s.last()@,
        ));
    }
}

proof fn lemma_map_of_update(s: Seq<ShimEntry>, i: int, e: ShimEntry)
    requires
        forall|p: int, q: int| 0 <= p < q < s.len() ==> s[p].name@ != s[q].name@,
        0 <= i < s.len(),
        e.name@ == s[i].name@,
    ensures
        map_of(s.update(i, e)) == map_of(s).insert(e.name@, e@),
    decreases s.len(),
{
    if i == s.len() - 1 {
        assert(s.update(i, e).drop_last() =~= s.drop_last());
        assert(s.update(i, e).last() == e);
        assert(map_of(s.update(i, e)) =~= map_of(s).insert(e.name@, e@));
    } else {
        let dl = s.drop_last();
        assert forall|p: int, q: int| 0 <= p < q < dl.len() implies dl[p].name@ != dl[q].name@ by {
            assert(s[p].name@ != s[q].name@);
        }
        assert(dl[i] == s[i]);
        lemma_map_of_update(dl, i, e);
        assert(s.update(i, e).drop_last() =~= dl.update(i, e));
        assert(s.update(i, e).last() == s.last());
        assert(e.name@ != s.last().name@);
        assert(map_of(s.update(i, e)) =~= map_of(s).insert(e.name@, e@));
    }
}

impl ShimRegistry {
    /// No two entries share a name.
    pub closed spec fn wf(&self) -> bool {
        forall|p: int, q: int|
            0 <= p < q < self.entries@.len() ==> self.entries@[p].name@ != self.entries@[q].name@
    }

    /// An empty registry.
    pub fn new() -> (r: ShimRegistry)
        ensures
            r.wf(),
            r@ == Map::<Seq<char>, ShimEntryV>::empty(),
    {
        ShimRegistry { entries: Vec::new() }
    }

    /// The index of the entry with the given name, if any.
    fn index_of(&self, name: &str) -> (r: Option<usize>)
        ensures
            match r {
                Some(i) => i < self.entries@.len() && self.entries@[i as int].name@ == name@,
                None => forall|i: int|
                    0 <= i < self.entries@.len() ==> self.entries@[i].name@ != name@,
            },
    {
        let n = self.entries.len();
        let mut i: usize = 0;
        while i < n
            invariant
                n == self.entries@.len(),
                i <= n,
                forall|j: int| 0 <= j < i ==> self.entries@[j].name@ != name@,
            decreases n - i,
        {
            if str_eq(self.entries[i].name.as_str(), name) {
                return Some(i);
            }
            i += 1;
        }
        None
    }

    /// Upsert: record a shim under its name, replacing any prior entry of
    /// the same name (last write wins). The creation time is read from the
    /// system clock, so nothing is said about it beyond the other fields.
    pub fn add(&mut self, name: String, target: String, installed_by: String)
        requires
            old(self).wf(),
        ensures
            final(self).wf(),
            final(self)@.contains_key(name@),
            final(self)@[name@].name == name@,
            final(self)@[name@].target == target@,
            final(self)@[name@].installed_by == installed_by@,
            final(self)@.dom() == old(self)@.dom().insert(name@),
            final(self)@.remove(name@) == old(self)@.remove(name@),
    {
        let entry = ShimEntry { name, target, installed_by, created_at: now_unix() };
        self.insert_entry(entry);
    }

    /// Upsert a whole entry, keeping its creation time; any prior entry of
    /// the same name is replaced.
    pub fn insert_entry(&mut self, entry: ShimEntry)
        requires
            old(self).wf(),
        ensures
            final(self).wf(),
            final(self)@ == old(self)@.insert(entry.name@, entry@),
    {
        let ghost pre = self.entries@;
        let ghost ge = entry;
        let found = self.index_of(entry.name.as_str());
        match found {
            Some(i) => {
                proof {
                    lemma_map_of_update(pre, i as int, ge);
                    lemma_map_of_dom(pre);
                }
                self.entries[i] = entry;
                proof {
                    assert(self.entries@ == pre.update(i as int, ge));
                    assert forall|p: int, q: int|
                        0 <= p < q < self.entries@.len() implies self.entries@[p].name@
                        != self.entries@[q].name@ by {
                        assert(pre[p].name@ != pre[q].name@);
                        assert(pre[i as int].name@ == ge.name@);
                    }
                    lemma_map_of_index(self.entries@, i as int);
                    assert(map_of(pre).contains_key(ge.name@));
                    assert(self@ =~= map_of(pre).insert(ge.name@, ge@));
                }
            },
            None => {
                self.entries.push(entry);
                proof {
                    assert(self.entries@.drop_last() =~= pre);
                    assert(self.entries@.last() == ge);
                    assert(self@ == map_of(pre).insert(ge.name@, ge@));
                    assert forall|p: int, q: int|
                        0 <= p < q < self.entries@.len() implies self.entries@[p].name@
                        != self.entries@[q].name@ by {
                        if q < self.entries@.len() - 1 {
                            assert(pre[p].name@ != pre[q].name@);
                        } else {
                            assert(pre[p].name@ != ge.name@);
                        }
                    }
                }
            },
        }
    }

    /// Remove the entry with the given name and hand it back, so that the
    /// caller can clean up the artifact on disk; removing a missing name is
    /// a no-op that returns nothing.
    pub fn remove(&mut self, name: &str) -> (r: Option<ShimEntry>)
        requires
            old(self).wf(),
        ensures
            final(self).wf(),
            final(self)@ == old(self)@.remove(name@),
            r is Some <==> old(self)@.contains_key(name@),
            r is Some ==> r->Some_0@ == old(self)@[name@],
    {
        let ghost pre = self.entries@;
        let found = self.index_of(name);
        match found {
            Some(i) => {
                proof {
                    lemma_map_of_remove(pre, i as int);
                    lemma_map_of_index(pre, i as int);
                    lemma_map_of_dom(pre);
                }
                let e = self.entries.remove(i);
                proof {
                    assert(self.entries@ =~= pre.subrange(0, i as int) + pre.subrange(
                        i as int + 1,
                        pre.len() as int,
                    ));
                    assert forall|p: int, q: int|
                        0 <= p < q < self.entries@.len() implies self.entries@[p].name@
                        != self.entries@[q].name@ by {
                        let p0 = if p < i as int { p } else { p + 1 };
                        let q0 = if q < i as int { q } else { q + 1 };
                        assert(self.entries@[p] == pre[p0]);
                        assert(self.entries@[q] == pre[q0]);
                        assert(pre[p0].name@ != pre[q0].name@);
                    }
                }
                Some(e)
            },
            None => {
                proof {
                    lemma_map_of_dom(pre);
                    assert(!map_of(pre).contains_key(name@));
                    assert(self@ =~= map_of(pre).remove(name@));
                }
                None
            },
        }
    }

    /// Look a shim up by name.
    pub fn get(&self, name: &str) -> (r: Option<&ShimEntry>)
        requires
            self.wf(),
        ensures
            r is Some <==> self@.contains_key(name@),
            r is Some ==> r->Some_0@ == self@[name@],
    {
        proof {
            lemma_map_of_dom(self.entries@);
        }
        let found = self.index_of(name);
        match found {
            Some(i) => {
                proof {
                    lemma_map_of_index(self.entries@, i as int);
                }
                Some(&self.entries[i])
            },
            None => None,
        }
    }

    /// All entries, one per registered name.
    pub fn list(&self) -> (r: &Vec<ShimEntry>)
        requires
            self.wf(),
        ensures
            r@.len() == self@.dom().len(),
            forall|i: int|
                0 <= i < r@.len() ==> self@.contains_key(#[trigger] r@[i].name@)
                    && self@[r@[i].name@] == r@[i]@,
    {
        proof {
            lemma_map_of_len(self.entries@);
            assert forall|i: int|
                0 <= i < self.entries@.len() implies self@.contains_key(
                #[trigger] self.entries@[i].name@,
            ) && self@[self.entries@[i].name@] == self.entries@[i]@ by {
                lemma_map_of_index(self.entries@, i);
            }
        }
        &self.entries
    }

    /// The number of registered shims.
    pub fn len(&self) -> (n: usize)
        requires
            self.wf(),
        ensures
            n == self@.dom().len(),
    {
        proof {
            lemma_map_of_len(self.entries@);
        }
        self.entries.len()
    }

    /// Whether no shim is registered.
    pub fn is_empty(&self) -> (r: bool)
        requires
            self.wf(),
        ensures
            r == (self@.dom().len() == 0),
    {
        proof {
            lemma_map_of_len(self.entries@);
        }
        self.entries.is_empty()
    }
}

impl Default for ShimRegistry {
    /// An empty registry.
    fn default() -> (r: ShimRegistry)
        ensures
            r.wf(),
            r@ == Map::<Seq<char>, ShimEntryV>::empty(),
    {
        ShimRegistry { entries: Vec::new() }
    }
}

} // verus!
