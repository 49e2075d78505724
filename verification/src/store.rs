//! The clip sample store: decoded PCM by clip identifier.
use crate::render::Sample;
use vstd::prelude::*;

verus! {

/// One stored clip: its identifier and its decoded, interleaved samples.
struct ClipEntry {
    id: String,
    samples: Vec<Sample>,
}

/// A cache from clip identifier to the clip's decoded samples. An entry is
/// written whole and never updated in part. The entries are kept in a vector
/// in which no identifier occurs twice, and are found by comparing
/// identifiers one by one.
pub struct ClipStore {
    entries: Vec<ClipEntry>,
    silence: Vec<Sample>,
}

/// Whether `entries` holds an entry for `id` at index `i`.
spec fn holds_at(entries: Seq<ClipEntry>, id: Seq<char>, i: int) -> bool {
    0 <= i < entries.len() && entries[i].id@ == id
}

/// Whether no identifier occurs twice in `entries`.
spec fn distinct_ids(entries: Seq<ClipEntry>) -> bool {
    forall|i: int, j: int|
        0 <= i < entries.len() && 0 <= j < entries.len() && i != j ==> (#[trigger] entries[i]).id@
            != (#[trigger] entries[j]).id@
}

/// The map that `entries` stands for.
spec fn entries_map(entries: Seq<ClipEntry>) -> Map<Seq<char>, Seq<Sample>> {
    Map::new(
        |id: Seq<char>| exists|i: int| holds_at(entries, id, i),
        |id: Seq<char>| entries[choose|i: int| holds_at(entries, id, i)].samples@,
    )
}

impl View for ClipStore {
    type V = Map<Seq<char>, Seq<Sample>>;

    closed spec fn view(&self) -> Map<Seq<char>, Seq<Sample>> {
        entries_map(self.entries@)
    }
}

/// The samples stored under `id`, or the empty sequence where there are none.
pub open spec fn samples_or_silence(store: Map<Seq<char>, Seq<Sample>>, id: Seq<char>) -> Seq<
    Sample,
> {
    if store.dom().contains(id) {
        store[id]
    } else {
        Seq::empty()
    }
}

/// The index of the entry for `id`, if there is one.
fn find(entries: &Vec<ClipEntry>, id: &String) -> (found: Option<usize>)
    ensures
        match found {
            Some(i) => holds_at(entries@, id@, i as int),
            None => forall|i: int| !holds_at(entries@, id@, i),
        },
{
    let mut i: usize = 0;
    while i < entries.len()
        invariant
            i <= entries.len(),
            forall|k: int| 0 <= k < i ==> !holds_at(entries@, id@, k),
        decreases entries.len() - i,
    {
        if entries[i].id == *id {
            return Some(i);
        }
        i = i + 1;
    }
    None
}

/// The identifiers of the first `n` entries.
spec fn ids_upto(entries: Seq<ClipEntry>, n: int) -> Set<Seq<char>>
    decreases n,
{
    if n <= 0 {
        Set::empty()
    } else {
        ids_upto(entries, n - 1).insert(entries[n - 1].id@)
    }
}

/// The identifiers of the first `n` entries are those held at an index
/// below `n`, and finitely many.
proof fn lemma_ids_upto(entries: Seq<ClipEntry>, n: int)
    requires
        0 <= n <= entries.len(),
    ensures
        ids_upto(entries, n).finite(),
        ids_upto(entries, n).len() <= n,
        forall|id: Seq<char>|
            ids_upto(entries, n).contains(id) <==> exists|i: int|
                0 <= i < n && holds_at(entries, id, i),
    decreases n,
{
    if n > 0 {
        lemma_ids_upto(entries, n - 1);
        let before = ids_upto(entries, n - 1);
        let last = entries[n - 1].id@;
        assert(holds_at(entries, last, n - 1));
        assert forall|id: Seq<char>| ids_upto(entries, n).contains(id) implies exists|i: int|
            0 <= i < n && holds_at(entries, id, i) by {
            if id == last {
                assert(0 <= n - 1 < n && holds_at(entries, id, n - 1));
            } else {
                assert(before.contains(id));
                let i = choose|i: int| 0 <= i < n - 1 && holds_at(entries, id, i);
                assert(0 <= i < n && holds_at(entries, id, i));
            }
        }
        assert forall|id: Seq<char>| (exists|i: int|
            0 <= i < n && holds_at(entries, id, i)) implies ids_upto(entries, n).contains(
            id,
        ) by {
            let i = choose|i: int| 0 <= i < n && holds_at(entries, id, i);
            if i < n - 1 {
                assert(0 <= i < n - 1 && holds_at(entries, id, i));
            }
        }
    }
}

impl ClipStore {
    /// The store holds finitely many clips.
    pub proof fn lemma_finite(self)
        ensures
            self@.dom().finite(),
    {
        let entries = self.entries@;
        lemma_ids_upto(entries, entries.len() as int);
        assert(self@.dom() =~= ids_upto(entries, entries.len() as int)) by {
            assert forall|id: Seq<char>| self@.dom().contains(id) implies ids_upto(
                entries,
                entries.len() as int,
            ).contains(id) by {
                let i = choose|i: int| holds_at(entries, id, i);
                assert(0 <= i < entries.len() && holds_at(entries, id, i));
            }
        }
    }

    #[verifier::type_invariant]
    spec fn well_formed(&self) -> bool {
        distinct_ids(self.entries@) && self.silence@.len() == 0
    }

    /// An empty store.
    pub fn new() -> (store: ClipStore)
        ensures
            store@ == Map::<Seq<char>, Seq<Sample>>::empty(),
    {
        let store = ClipStore { entries: Vec::new(), silence: Vec::new() };
        assert(store@ =~= Map::<Seq<char>, Seq<Sample>>::empty());
        store
    }

    /// Inserts the decoded samples of clip `id`, or replaces those stored
    /// under it. Every other entry stays as it is.
    pub fn put(&mut self, id: &str, samples: Vec<Sample>)
        ensures
            final(self)@ == old(self)@.insert(id@, samples@),
    {
        proof {
            use_type_invariant(&*self);
        }
        let key: String = id.to_owned();
        let ghost before = self.entries@;
        let mut entries: Vec<ClipEntry> = Vec::new();
        core::mem::swap(&mut self.entries, &mut entries);
        match find(&entries, &key) {
            Some(i) => {
                entries.set(i, ClipEntry { id: key, samples });
                proof {
                    let after = entries@;
                    assert forall|k: Seq<char>, n: int| holds_at(after, k, n) <==> holds_at(
                        before,
                        k,
                        n,
                    ) by {}
                    assert(entries_map(after) =~= entries_map(before).insert(id@, samples@)) by {
                        assert forall|k: Seq<char>| #[trigger]
                            entries_map(after).dom().contains(k) implies entries_map(after)[k]
                            == entries_map(before).insert(id@, samples@)[k] by {
                            let n = choose|n: int| holds_at(after, k, n);
                            let m = choose|m: int| holds_at(before, k, m);
                            assert(holds_at(before, k, n));
                            assert(n == m);
                        }
                        assert(holds_at(before, id@, i as int));
                    }
                    assert(distinct_ids(after)) by {
                        assert forall|a: int, b: int|
                            0 <= a < after.len() && 0 <= b < after.len() && a != b implies (
                        #[trigger] after[a]).id@ != (#[trigger] after[b]).id@ by {
                            assert(after[a].id@ == before[a].id@);
                            assert(after[b].id@ == before[b].id@);
                        }
                    }
                }
            },
            None => {
                entries.push(ClipEntry { id: key, samples });
                proof {
                    let after = entries@;
                    let last = before.len() as int;
                    assert(holds_at(after, id@, last));
                    assert forall|k: Seq<char>, n: int| holds_at(before, k, n) implies holds_at(
                        after,
                        k,
                        n,
                    ) by {}
                    assert(distinct_ids(after)) by {
                        assert forall|a: int, b: int|
                            0 <= a < after.len() && 0 <= b < after.len() && a != b implies (
                        #[trigger] after[a]).id@ != (#[trigger] after[b]).id@ by {
                            if a < last {
                                assert(after[a] == before[a]);
                                assert(!holds_at(before, id@, a));
                            }
                            if b < last {
                                assert(after[b] == before[b]);
                                assert(!holds_at(before, id@, b));
                            }
                        }
                    }
                    assert(entries_map(after) =~= entries_map(before).insert(id@, samples@)) by {
                        assert forall|k: Seq<char>| #[trigger]
                            entries_map(after).dom().contains(k) implies entries_map(
                            before,
                        ).insert(id@, samples@).dom().contains(k) && entries_map(after)[k]
                            == entries_map(before).insert(id@, samples@)[k] by {
                            let n = choose|n: int| holds_at(after, k, n);
                            if k != id@ {
                                assert(holds_at(before, k, n));
                                let m = choose|m: int| holds_at(before, k, m);
                                assert(holds_at(after, k, m));
                                assert(n == m);
                            } else {
                                assert(n == last);
                            }
                        }
                    }
                }
            },
        }
        core::mem::swap(&mut self.entries, &mut entries);
    }

    /// The samples stored under `id`. An identifier that the store does not
    /// hold yields the empty sequence: silence, not a failure.
    pub fn get(&self, id: &str) -> (samples: &Vec<Sample>)
        ensures
            samples@ == samples_or_silence(self@, id@),
    {
        proof {
            use_type_invariant(self);
        }
        let key: String = id.to_owned();
        match find(&self.entries, &key) {
            Some(i) => {
                proof {
                    let n = choose|n: int| holds_at(self.entries@, id@, n);
                    assert(n == i);
                }
                &self.entries[i].samples
            },
            None => &self.silence,
        }
    }

    /// Whether the store holds samples for `id`.
    pub fn contains(&self, id: &str) -> (held: bool)
        ensures
            held == self@.dom().contains(id@),
    {
        let key: String = id.to_owned();
        find(&self.entries, &key).is_some()
    }
}

/// Caches the decoded samples `data` of clip `id`, replacing what the store
/// held for it.
pub fn cache_clip_data(store: &mut ClipStore, id: &str, data: Vec<Sample>)
    ensures
        final(store)@ == old(store)@.insert(id@, data@),
{
    store.put(id, data);
}

/// Caches what decoding clip `id` gave, and says whether there was anything
/// to cache: a failed decode leaves the store as it was, so that the clip
/// stays silent.
pub fn cache_decoded(store: &mut ClipStore, id: &str, decoded: Option<Vec<Sample>>) -> (cached:
    bool)
    ensures
        cached == decoded is Some,
        final(store)@ == match decoded {
            Some(data) => old(store)@.insert(id@, data@),
            None => old(store)@,
        },
{
    match decoded {
        Some(data) => {
            store.put(id, data);
            true
        },
        None => false,
    }
}

} // verus!
