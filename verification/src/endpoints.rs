//! The audio outputs that the guard watches, keyed by device id.
use vstd::prelude::*;
use crate::startup::texts;

verus! {

/// The entry at `i` has the device id `id`.
pub open spec fn has_id_at<W>(entries: Seq<(String, W)>, id: Seq<char>, i: int) -> bool {
    0 <= i < entries.len() && entries[i].0@ == id
}

/// No device id occurs twice.
pub open spec fn ids_unique<W>(entries: Seq<(String, W)>) -> bool {
    forall|i: int, j: int|
        0 <= i < entries.len() && 0 <= j < entries.len() && i != j ==> entries[i].0@
            != entries[j].0@
}

/// The watches by device id.
pub open spec fn entries_map<W>(entries: Seq<(String, W)>) -> Map<Seq<char>, W> {
    Map::new(
        |id: Seq<char>| exists|i: int| has_id_at(entries, id, i),
        |id: Seq<char>| entries[choose|i: int| has_id_at(entries, id, i)].1,
    )
}

/// An entry of a list without repeated ids is in the map, with its watch.
proof fn lemma_entry_in_map<W>(entries: Seq<(String, W)>, i: int)
    requires
        ids_unique(entries),
        0 <= i < entries.len(),
    ensures
        entries_map(entries).contains_key(entries[i].0@),
        entries_map(entries)[entries[i].0@] == entries[i].1,
{
    let id = entries[i].0@;
    assert(has_id_at(entries, id, i));
    let j = choose|j: int| has_id_at(entries, id, j);
    assert(j == i);
}

/// Removing the entry at `i` removes its id from the map and keeps the rest.
proof fn lemma_remove_entry<W>(entries: Seq<(String, W)>, i: int)
    requires
        ids_unique(entries),
        0 <= i < entries.len(),
    ensures
        ids_unique(entries.remove(i)),
        entries_map(entries.remove(i)) == entries_map(entries).remove(entries[i].0@),
{
    let rest = entries.remove(i);
    let gone = entries[i].0@;
    assert forall|a: int, b: int|
        0 <= a < rest.len() && 0 <= b < rest.len() && a != b implies rest[a].0@ != rest[b].0@ by {
        let a0 = if a < i { a } else { a + 1 };
        let b0 = if b < i { b } else { b + 1 };
        assert(rest[a] == entries[a0]);
        assert(rest[b] == entries[b0]);
    }
    assert forall|id: Seq<char>|
        entries_map(rest).contains_key(id) <==> entries_map(entries).remove(gone).contains_key(
            id,
        ) by {
        if entries_map(rest).contains_key(id) {
            let a = choose|a: int| has_id_at(rest, id, a);
            let a0 = if a < i { a } else { a + 1 };
            assert(rest[a] == entries[a0]);
            assert(has_id_at(entries, id, a0));
            assert(a0 != i);
        }
        if entries_map(entries).remove(gone).contains_key(id) {
            let a0 = choose|a0: int| has_id_at(entries, id, a0);
            assert(a0 != i);
            let a = if a0 < i { a0 } else { a0 - 1 };
            assert(rest[a] == entries[a0]);
            assert(has_id_at(rest, id, a));
        }
    }
    assert forall|id: Seq<char>| #[trigger]
        entries_map(rest).contains_key(id) implies entries_map(rest)[id] == entries_map(
            entries,
        )[id] by {
        let a = choose|a: int| has_id_at(rest, id, a);
        let a0 = if a < i { a } else { a + 1 };
        assert(rest[a] == entries[a0]);
        lemma_entry_in_map(rest, a);
        lemma_entry_in_map(entries, a0);
    }
    assert(entries_map(rest) =~= entries_map(entries).remove(gone));
}

/// Appending an entry with a new id adds it to the map.
proof fn lemma_push_entry<W>(entries: Seq<(String, W)>, id: String, watch: W)
    requires
        ids_unique(entries),
        !entries_map(entries).contains_key(id@),
    ensures
        ids_unique(entries.push((id, watch))),
        entries_map(entries.push((id, watch))) == entries_map(entries).insert(id@, watch),
{
    let more = entries.push((id, watch));
    let n = entries.len() as int;
    assert forall|a: int, b: int|
        0 <= a < more.len() && 0 <= b < more.len() && a != b implies more[a].0@ != more[b].0@ by {
        if a == n {
            assert(!has_id_at(entries, id@, b));
        } else if b == n {
            assert(!has_id_at(entries, id@, a));
        }
    }
    assert forall|k: Seq<char>|
        entries_map(more).contains_key(k) <==> entries_map(entries).insert(
            id@,
            watch,
        ).contains_key(k) by {
        if entries_map(more).contains_key(k) {
            let a = choose|a: int| has_id_at(more, k, a);
            if a < n {
                assert(has_id_at(entries, k, a));
            }
        }
        if entries_map(entries).contains_key(k) {
            let a = choose|a: int| has_id_at(entries, k, a);
            assert(has_id_at(more, k, a));
        }
        if k == id@ {
            assert(has_id_at(more, k, n));
        }
    }
    assert forall|k: Seq<char>| #[trigger]
        entries_map(more).contains_key(k) implies entries_map(more)[k] == entries_map(
            entries,
        ).insert(id@, watch)[k] by {
        let a = choose|a: int| has_id_at(more, k, a);
        lemma_entry_in_map(more, a);
        if a < n {
            assert(more[a] == entries[a]);
            lemma_entry_in_map(entries, a);
        }
    }
    assert(entries_map(more) =~= entries_map(entries).insert(id@, watch));
}

/// The audio outputs being watched: for each device id, what watches it.
pub struct EndpointRegistry<W> {
    entries: Vec<(String, W)>,
}

impl<W> View for EndpointRegistry<W> {
    type V = Map<Seq<char>, W>;

    closed spec fn view(&self) -> Map<Seq<char>, W> {
        entries_map(self.entries@)
    }
}

impl<W> EndpointRegistry<W> {
    #[verifier::type_invariant]
    spec fn well_formed(self) -> bool {
        ids_unique(self.entries@)
    }

    /// An empty registry.
    pub fn new() -> (r: Self)
        ensures
            r@ == Map::<Seq<char>, W>::empty(),
    {
        let r = EndpointRegistry { entries: Vec::new() };
        assert(r@ =~= Map::<Seq<char>, W>::empty());
        r
    }

    /// Where the entry for `id` stands, if there is one.
    fn position(&self, id: &String) -> (r: Option<usize>)
        ensures
            r is None <==> !self@.contains_key(id@),
            r matches Some(i) ==> i < self.entries@.len() && self.entries@[i as int].0@ == id@,
    {
        proof { use_type_invariant(self); }
        let n = self.entries.len();
        let mut i: usize = 0;
        while i < n
            invariant
                n == self.entries@.len(),
                i <= n,
                forall|j: int| 0 <= j < i ==> self.entries@[j].0@ != id@,
            decreases n - i,
        {
            if self.entries[i].0 == *id {
                assert(has_id_at(self.entries@, id@, i as int));
                return Some(i);
            }
            i = i + 1;
        }
        proof {
            if self@.contains_key(id@) {
                let j = choose|j: int| has_id_at(self.entries@, id@, j);
                assert(self.entries@[j].0@ != id@);
            }
        }
        None
    }

    /// Whether the output with this device id is watched.
    pub fn contains_key(&self, id: &String) -> (r: bool)
        ensures
            r == self@.contains_key(id@),
    {
        self.position(id).is_some()
    }

    /// The number of watched outputs.
    pub fn len(&self) -> (r: usize)
        ensures
            r == self@.dom().len(),
    {
        proof {
            use_type_invariant(self);
            self.lemma_dom_len();
        }
        self.entries.len()
    }

    /// The domain of the map has one id per entry.
    proof fn lemma_dom_len(&self)
        requires
            ids_unique(self.entries@),
        ensures
            self@.dom().finite(),
            self@.dom().len() == self.entries@.len(),
    {
        let ids = self.entries@.map_values(|e: (String, W)| e.0@);
        assert forall|a: int, b: int| 0 <= a < ids.len() && 0 <= b < ids.len() && a != b implies ids[a]
            != ids[b] by {
        }
        assert(ids.no_duplicates());
        assert forall|id: Seq<char>| self@.dom().contains(id) <==> ids.to_set().contains(id) by {
            if self@.dom().contains(id) {
                let j = choose|j: int| has_id_at(self.entries@, id, j);
                assert(ids[j] == id);
            }
            if ids.to_set().contains(id) {
                let j = choose|j: int| 0 <= j < ids.len() && ids[j] == id;
                assert(has_id_at(self.entries@, id, j));
            }
        }
        assert(self@.dom() =~= ids.to_set());
        ids.unique_seq_to_set();
    }

    /// Watches the output `id` with `watch`, and hands back what watched it
    /// before, if anything did.
    pub fn insert(&mut self, id: String, watch: W) -> (r: Option<W>)
        ensures
            final(self)@ == old(self)@.insert(id@, watch),
            r == (if old(self)@.contains_key(id@) {
                Some(old(self)@[id@])
            } else {
                None
            }),
    {
        proof { use_type_invariant(&*self); }
        let found = self.position(&id);
        let mut entries = Vec::new();
        std::mem::swap(&mut entries, &mut self.entries);
        let ghost start = entries@;
        let previous = match found {
            Some(i) => {
                proof {
                    lemma_entry_in_map(start, i as int);
                    lemma_remove_entry(start, i as int);
                }
                let (_, old_watch) = entries.remove(i);
                Some(old_watch)
            },
            None => None,
        };
        proof { lemma_push_entry(entries@, id, watch); }
        entries.push((id, watch));
        self.entries = entries;
        assert(self@ =~= entries_map(start).insert(id@, watch));
        previous
    }

    /// The active outputs that are not watched yet, each once, in the order
    /// in which `active` first lists them.
    pub fn unwatched(&self, active: &[String]) -> (r: Vec<String>)
        ensures
            texts(r@).to_set() == texts(active@).to_set().difference(self@.dom()),
            texts(r@).no_duplicates(),
            forall|a: int, b: int|
                0 <= a < b < r@.len() ==> #[trigger] occurs_first(
                    texts(active@),
                    texts(r@)[a],
                    texts(r@)[b],
                ),
    {
        let mut r: Vec<String> = Vec::new();
        let n = active.len();
        let mut i: usize = 0;
        while i < n
            invariant
                n == active@.len(),
                i <= n,
                texts(r@).to_set() == texts(active@.take(i as int)).to_set().difference(self@.dom()),
                texts(r@).no_duplicates(),
                forall|a: int, b: int|
                    0 <= a < b < r@.len() ==> #[trigger] occurs_first(
                        texts(active@),
                        texts(r@)[a],
                        texts(r@)[b],
                    ),
            decreases n - i,
        {
            let id = &active[i];
            let ghost seen = texts(active@.take(i as int));
            let ghost listed_before = texts(r@);
            assert(texts(active@.take(i + 1)) =~= seen.push(id@));
            proof { lemma_push_to_set(seen, id@); }
            let watched = self.contains_key(id);
            let listed = contains_text(r.as_slice(), id);
            if !watched && !listed {
                r.push(id.clone());
                assert(texts(r@) =~= listed_before.push(id@));
                proof { lemma_push_to_set(listed_before, id@); }
                assert(!seen.to_set().contains(id@)) by {
                    if seen.to_set().contains(id@) {
                        assert(seen.to_set().difference(self@.dom()).contains(id@));
                    }
                }
                assert forall|a: int, b: int|
                    0 <= a < texts(r@).len() && 0 <= b < texts(r@).len() && a != b implies texts(
                        r@,
                    )[a] != texts(r@)[b] by {
                    if a == listed_before.len() {
                        assert(listed_before.to_set().contains(listed_before[b]));
                    } else if b == listed_before.len() {
                        assert(listed_before.to_set().contains(listed_before[a]));
                    }
                }
                assert forall|a: int, b: int|
                    0 <= a < b < r@.len() implies #[trigger] occurs_first(
                        texts(active@),
                        texts(r@)[a],
                        texts(r@)[b],
                    ) by {
                    if b == listed_before.len() {
                        let x = listed_before[a];
                        assert(listed_before.to_set().contains(x));
                        assert(seen.to_set().contains(x));
                        let k = choose|k: int| 0 <= k < seen.len() && seen[k] == x;
                        assert(texts(active@)[k] == x);
                        assert forall|j: int| 0 <= j <= k implies texts(active@)[j] != id@ by {
                            assert(texts(active@)[j] == seen[j]);
                        }
                    } else {
                        assert(texts(r@)[a] == listed_before[a]);
                        assert(texts(r@)[b] == listed_before[b]);
                        assert(occurs_first(texts(active@), listed_before[a], listed_before[b]));
                    }
                }
                assert(texts(r@).to_set() =~= texts(active@.take(i + 1)).to_set().difference(
                    self@.dom(),
                ));
            } else {
                assert(texts(r@).to_set() =~= texts(active@.take(i + 1)).to_set().difference(
                    self@.dom(),
                ));
            }
            i = i + 1;
        }
        assert(active@.take(n as int) =~= active@);
        r
    }

    /// Keeps only the outputs whose device ids are among `active`; the others
    /// are dropped, with what watched them.
    pub fn retain_active(&mut self, active: &[String])
        ensures
            final(self)@ == old(self)@.restrict(texts(active@).to_set()),
    {
        proof { use_type_invariant(&*self); }
        let ghost keep = texts(active@).to_set();
        let mut entries = Vec::new();
        std::mem::swap(&mut entries, &mut self.entries);
        let ghost start = entries_map(entries@);
        let mut i: usize = 0;
        while i < entries.len()
            invariant
                ids_unique(entries@),
                i <= entries@.len(),
                keep == texts(active@).to_set(),
                forall|j: int| 0 <= j < i ==> keep.contains(#[trigger] entries@[j].0@),
                forall|id: Seq<char>| #[trigger]
                    entries_map(entries@).contains_key(id) <==> (start.contains_key(id) && (
                    keep.contains(id) || exists|j: int| i <= j < entries@.len() && has_id_at(
                        entries@,
                        id,
                        j,
                    ))),
                forall|id: Seq<char>| #[trigger]
                    entries_map(entries@).contains_key(id) ==> entries_map(entries@)[id]
                        == start[id],
            decreases entries@.len() - i,
        {
            let active_here = contains_text(active, &entries[i].0);
            if active_here {
                assert forall|id: Seq<char>| #[trigger]
                    entries_map(entries@).contains_key(id) <==> (start.contains_key(id) && (
                    keep.contains(id) || exists|j: int|
                        i + 1 <= j < entries@.len() && has_id_at(entries@, id, j))) by {
                    if entries_map(entries@).contains_key(id) && !keep.contains(id) {
                        let j = choose|j: int| i <= j < entries@.len() && has_id_at(entries@, id, j);
                        if j == i {
                            assert(keep.contains(entries@[i as int].0@));
                        }
                        assert(has_id_at(entries@, id, j));
                    }
                    if start.contains_key(id) && exists|j: int|
                        i + 1 <= j < entries@.len() && has_id_at(entries@, id, j) {
                        let j = choose|j: int|
                            i + 1 <= j < entries@.len() && has_id_at(entries@, id, j);
                        assert(i <= j < entries@.len() && has_id_at(entries@, id, j));
                    }
                }
                i = i + 1;
            } else {
                let ghost before = entries@;
                let ghost gone = before[i as int].0@;
                proof {
                    lemma_entry_in_map(before, i as int);
                    lemma_remove_entry(before, i as int);
                }
                entries.remove(i);
                assert forall|j: int| 0 <= j < i implies keep.contains(#[trigger] entries@[j].0@) by {
                    assert(entries@[j] == before[j]);
                }
                assert forall|id: Seq<char>| #[trigger]
                    entries_map(entries@).contains_key(id) <==> (start.contains_key(id) && (
                    keep.contains(id) || exists|j: int|
                        i <= j < entries@.len() && has_id_at(entries@, id, j))) by {
                    if id == gone {
                        if exists|j: int| i <= j < entries@.len() && has_id_at(entries@, id, j) {
                            let j = choose|j: int|
                                i <= j < entries@.len() && has_id_at(entries@, id, j);
                            assert(entries@[j] == before[j + 1]);
                        }
                    } else {
                        if entries_map(before).contains_key(id) && !keep.contains(id) {
                            let j = choose|j: int|
                                i <= j < before.len() && has_id_at(before, id, j);
                            assert(j != i);
                            assert(entries@[j - 1] == before[j]);
                            assert(has_id_at(entries@, id, j - 1));
                        }
                        if exists|j: int| i <= j < entries@.len() && has_id_at(entries@, id, j) {
                            let j = choose|j: int|
                                i <= j < entries@.len() && has_id_at(entries@, id, j);
                            assert(entries@[j] == before[j + 1]);
                            assert(has_id_at(before, id, j + 1));
                        }
                    }
                }
            }
        }
        assert forall|id: Seq<char>|
            entries_map(entries@).contains_key(id) <==> start.restrict(keep).contains_key(id) by {
            if entries_map(entries@).contains_key(id) && !keep.contains(id) {
                let j = choose|j: int| i <= j < entries@.len() && has_id_at(entries@, id, j);
            }
        }
        self.entries = entries;
        assert(self@ =~= start.restrict(keep));
    }
}

/// A refresh watches each active output that was not watched, keeps the
/// watches of the active outputs that were, and drops the rest: afterwards
/// exactly the active outputs are watched, and an output that stayed active
/// keeps the watch it had. `before` is what was watched, `added` the new
/// watches, one for each active output that `before` lacks.
pub proof fn law_refresh_tracks_active<W>(
    before: Map<Seq<char>, W>,
    added: Map<Seq<char>, W>,
    active: Set<Seq<char>>,
)
    requires
        added.dom() == active.difference(before.dom()),
    ensures
        before.union_prefer_right(added).restrict(active).dom() == active,
        forall|id: Seq<char>|
            before.contains_key(id) && active.contains(id) ==> #[trigger] before.union_prefer_right(
                added,
            ).restrict(active)[id] == before[id],
{
    let after = before.union_prefer_right(added).restrict(active);
    assert(after.dom() =~= active) by {
        assert forall|id: Seq<char>| active.contains(id) implies after.dom().contains(id) by {
            if !before.contains_key(id) {
                assert(added.dom().contains(id));
            }
        }
    }
    assert forall|id: Seq<char>| before.contains_key(id) && active.contains(id) implies #[trigger] after[id]
        == before[id] by {
        assert(!added.dom().contains(id));
    }
}

/// `x` occurs in `words` before any occurrence of `y`.
pub open spec fn occurs_first(words: Seq<Seq<char>>, x: Seq<char>, y: Seq<char>) -> bool {
    exists|i: int|
        0 <= i < words.len() && words[i] == x && forall|j: int| 0 <= j <= i ==> words[j] != y
}

/// The elements of a sequence with one more at its end are those of the
/// sequence and the new one.
proof fn lemma_push_to_set<A>(s: Seq<A>, x: A)
    ensures
        forall|t: A| #[trigger]
            s.push(x).to_set().contains(t) <==> (s.to_set().contains(t) || t == x),
{
    assert forall|t: A| #[trigger]
        s.push(x).to_set().contains(t) <==> (s.to_set().contains(t) || t == x) by {
        if s.push(x).to_set().contains(t) {
            let k = choose|k: int| 0 <= k < s.push(x).len() && s.push(x)[k] == t;
            if k < s.len() {
                assert(s[k] == t);
            }
        }
        if s.to_set().contains(t) {
            let k = choose|k: int| 0 <= k < s.len() && s[k] == t;
            assert(s.push(x)[k] == t);
        }
        if t == x {
            assert(s.push(x)[s.len() as int] == t);
        }
    }
}

/// Where `id` first occurs among `strings`, if it does.
pub fn first_position(strings: &[String], id: &String) -> (r: Option<usize>)
    ensures
        r is None <==> !texts(strings@).contains(id@),
        r matches Some(i) ==> i < strings@.len() && strings@[i as int]@ == id@ && forall|j: int|
            0 <= j < i ==> strings@[j]@ != id@,
{
    let n = strings.len();
    let mut i: usize = 0;
    while i < n
        invariant
            n == strings@.len(),
            i <= n,
            forall|j: int| 0 <= j < i ==> strings@[j]@ != id@,
        decreases n - i,
    {
        if strings[i] == *id {
            assert(texts(strings@)[i as int] == id@);
            return Some(i);
        }
        i = i + 1;
    }
    proof {
        if texts(strings@).contains(id@) {
            let j = choose|j: int| 0 <= j < texts(strings@).len() && texts(strings@)[j] == id@;
            assert(strings@[j]@ != id@);
        }
    }
    None
}

/// Whether `id` is one of `texts`.
fn contains_text(strings: &[String], id: &String) -> (r: bool)
    ensures
        r == texts(strings@).to_set().contains(id@),
{
    let n = strings.len();
    let mut i: usize = 0;
    while i < n
        invariant
            n == strings@.len(),
            i <= n,
            forall|j: int| 0 <= j < i ==> strings@[j]@ != id@,
        decreases n - i,
    {
        if strings[i] == *id {
            assert(texts(strings@)[i as int] == id@);
            return true;
        }
        i = i + 1;
    }
    proof {
        if texts(strings@).to_set().contains(id@) {
            let j = choose|j: int| 0 <= j < texts(strings@).len() && texts(strings@)[j] == id@;
            assert(strings@[j]@ != id@);
        }
    }
    false
}

} // verus!
