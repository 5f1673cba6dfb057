//! The hierarchical host cache: a trie indexed by labels, walked from the
//! root of a name towards its leaf.

use vstd::prelude::*;
use crate::domain::Domain;
use crate::record::{clone_data, data_views, RecordDataView, ResourceRecordData};

verus! {

/// What the cache holds for one name.
#[derive(Debug)]
pub enum CacheEntry {
    /// A terminal binding: these records answer for the name and for every
    /// name beneath it.
    Record(Vec<ResourceRecordData>),
    /// A zone: its own records answer for the name itself, and the cache
    /// inside holds the names beneath it.
    Zone(Vec<ResourceRecordData>, Cache),
}

/// A level of the trie: the entries of the names that differ in the label
/// at this level. No label is listed twice.
#[derive(Debug)]
pub struct Cache {
    entries: Vec<(String, CacheEntry)>,
}

/// The mathematical value of a [`CacheEntry`].
pub enum EntryView {
    Record(Seq<RecordDataView>),
    Zone(Seq<RecordDataView>, Map<Seq<char>, EntryView>),
}

/// The map from labels to entries that a list of labelled entries stands
/// for.
spec fn entries_map(entries: Seq<(String, CacheEntry)>) -> Map<Seq<char>, EntryView>
    decreases entries,
{
    if entries.len() == 0 {
        Map::empty()
    } else {
        entries_map(entries.drop_last()).insert(entries.last().0@, entry_view(entries.last().1))
    }
}

/// The value of an entry.
pub open spec fn entry_view(entry: CacheEntry) -> EntryView
    decreases entry,
{
    match entry {
        CacheEntry::Record(records) => EntryView::Record(data_views(records@)),
        CacheEntry::Zone(own, zone) => EntryView::Zone(data_views(own@), cache_view(zone)),
    }
}

/// The value of a cache level.
pub closed spec fn cache_view(cache: Cache) -> Map<Seq<char>, EntryView>
    decreases cache,
{
    entries_map(cache.entries@)
}

impl View for CacheEntry {
    type V = EntryView;

    open spec fn view(&self) -> EntryView {
        entry_view(*self)
    }
}

impl View for Cache {
    type V = Map<Seq<char>, EntryView>;

    open spec fn view(&self) -> Map<Seq<char>, EntryView> {
        cache_view(*self)
    }
}

/// The records an entry answers with for the name it is bound to.
pub open spec fn own_records(entry: EntryView) -> Seq<RecordDataView> {
    match entry {
        EntryView::Record(records) => records,
        EntryView::Zone(own, _) => own,
    }
}

/// The cache beneath an entry: that of a zone, and none beneath a terminal
/// record.
pub open spec fn beneath(entry: EntryView) -> Map<Seq<char>, EntryView> {
    match entry {
        EntryView::Record(_) => Map::empty(),
        EntryView::Zone(_, zone) => zone,
    }
}

/// What a cache answers for `name`, walking its labels from the last (the
/// root) to the first (the leaf).
///
/// A missing label ends the walk with no records. A terminal record ends it
/// with its records, whatever labels remain. A zone is entered while labels
/// remain, and answers with its own records when the walk ends on it.
pub open spec fn lookup(cache: Map<Seq<char>, EntryView>, name: Seq<Seq<char>>) -> Seq<
    RecordDataView,
>
    decreases name.len(),
{
    if name.len() == 0 || !cache.dom().contains(name.last()) {
        Seq::empty()
    } else {
        match cache[name.last()] {
            EntryView::Record(records) => records,
            EntryView::Zone(own, zone) => if name.len() == 1 {
                own
            } else {
                lookup(zone, name.drop_last())
            },
        }
    }
}

/// The cache after binding `entry` at `name`, walking its labels from the
/// last (the root) to the first (the leaf).
///
/// At the final label the entry replaces whatever was there. At every label
/// before it the walk enters a zone: the one that is there, or one made on
/// the way, which keeps as its own the records of the terminal record it
/// replaces and has none where nothing was bound.
pub open spec fn bound(
    cache: Map<Seq<char>, EntryView>,
    name: Seq<Seq<char>>,
    entry: EntryView,
) -> Map<Seq<char>, EntryView>
    decreases name.len(),
{
    if name.len() == 0 {
        cache
    } else if name.len() == 1 {
        cache.insert(name.last(), entry)
    } else if cache.dom().contains(name.last()) {
        cache.insert(
            name.last(),
            EntryView::Zone(
                own_records(cache[name.last()]),
                bound(beneath(cache[name.last()]), name.drop_last(), entry),
            ),
        )
    } else {
        cache.insert(
            name.last(),
            EntryView::Zone(Seq::empty(), bound(Map::empty(), name.drop_last(), entry)),
        )
    }
}

/// What an entry answers for the name that lies `extra` labels beneath the
/// name it is bound to (`extra` is empty for that name itself).
pub open spec fn answer_beneath(entry: EntryView, extra: Seq<Seq<char>>) -> Seq<RecordDataView> {
    match entry {
        EntryView::Record(records) => records,
        EntryView::Zone(own, zone) => if extra.len() == 0 {
            own
        } else {
            lookup(zone, extra)
        },
    }
}

/// How many labels two names share, counted from the root (the last label).
pub open spec fn shared_from_root(a: Seq<Seq<char>>, b: Seq<Seq<char>>) -> nat
    decreases a.len(),
{
    if a.len() == 0 || b.len() == 0 || a.last() != b.last() {
        0
    } else {
        1 + shared_from_root(a.drop_last(), b.drop_last())
    }
}

/// Whether the walk of `name` from the root meets a terminal record within
/// its first `steps` labels.
pub open spec fn meets_record(
    cache: Map<Seq<char>, EntryView>,
    name: Seq<Seq<char>>,
    steps: int,
) -> bool
    decreases name.len(),
{
    steps > 0 && name.len() > 0 && cache.dom().contains(name.last()) && match cache[name.last()] {
        EntryView::Record(_) => true,
        EntryView::Zone(_, zone) => meets_record(zone, name.drop_last(), steps - 1),
    }
}

/// After `entry` is bound at `name`, every name at or beneath `name` is
/// answered by `entry`, whatever the cache held before: a terminal record
/// answers for all of them, a zone answers for `name` with its own records
/// and for the names beneath with what its own cache holds.
pub proof fn lemma_bound_answers_beneath(
    cache: Map<Seq<char>, EntryView>,
    name: Seq<Seq<char>>,
    entry: EntryView,
    extra: Seq<Seq<char>>,
)
    requires
        name.len() > 0,
    ensures
        lookup(bound(cache, name, entry), extra + name) == answer_beneath(entry, extra),
    decreases name.len(),
{
    let asked = extra + name;
    assert(asked.last() == name.last());
    if name.len() == 1 {
        assert(asked.drop_last() =~= extra);
    } else {
        assert(asked.drop_last() =~= extra + name.drop_last());
        let zone = if cache.dom().contains(name.last()) {
            beneath(cache[name.last()])
        } else {
            Map::empty()
        };
        lemma_bound_answers_beneath(zone, name.drop_last(), entry, extra);
    }
}

/// After a bind at `name`, the name itself is answered by the records of
/// the entry that was bound.
pub proof fn lemma_bound_answers_exactly(
    cache: Map<Seq<char>, EntryView>,
    name: Seq<Seq<char>>,
    entry: EntryView,
)
    requires
        name.len() > 0,
    ensures
        lookup(bound(cache, name, entry), name) == own_records(entry),
{
    lemma_bound_answers_beneath(cache, name, entry, Seq::empty());
    assert(Seq::<Seq<char>>::empty() + name =~= name);
}

/// A terminal record bound at `name` answers for every name beneath it,
/// however many labels deeper.
pub proof fn lemma_terminal_record_wins(
    cache: Map<Seq<char>, EntryView>,
    name: Seq<Seq<char>>,
    records: Seq<RecordDataView>,
    extra: Seq<Seq<char>>,
)
    requires
        name.len() > 0,
    ensures
        lookup(bound(cache, name, EntryView::Record(records)), extra + name) == records,
{
    lemma_bound_answers_beneath(cache, name, EntryView::Record(records), extra);
}

/// A bind at `name` leaves the answer for every name that is neither `name`
/// nor beneath it as it was, with one exception: where the walk of the asked
/// name met a terminal record on a label that it shares with `name` and that
/// is not its own last step, the bind has turned that record into a zone,
/// and the asked name, now looked for inside the zone, has no records.
pub proof fn lemma_bound_elsewhere(
    cache: Map<Seq<char>, EntryView>,
    name: Seq<Seq<char>>,
    entry: EntryView,
    asked: Seq<Seq<char>>,
)
    requires
        name.len() > 0,
        shared_from_root(asked, name) < name.len(),
    ensures
        lookup(bound(cache, name, entry), asked) == if meets_record(
            cache,
            asked,
            if shared_from_root(asked, name) < asked.len() {
                shared_from_root(asked, name) as int
            } else {
                asked.len() - 1
            },
        ) {
            Seq::empty()
        } else {
            lookup(cache, asked)
        },
    decreases name.len(),
{
    if asked.len() > 0 && asked.last() == name.last() && asked.len() > 1 {
        let zone = if cache.dom().contains(name.last()) {
            beneath(cache[name.last()])
        } else {
            Map::empty()
        };
        lemma_bound_elsewhere(zone, name.drop_last(), entry, asked.drop_last());
    }
}

/// A bind at `name` leaves every name under another root label as it was.
pub proof fn lemma_bound_other_root(
    cache: Map<Seq<char>, EntryView>,
    name: Seq<Seq<char>>,
    entry: EntryView,
    asked: Seq<Seq<char>>,
)
    requires
        name.len() > 0,
        asked.len() > 0,
        asked.last() != name.last(),
    ensures
        lookup(bound(cache, name, entry), asked) == lookup(cache, asked),
{
    lemma_bound_elsewhere(cache, name, entry, asked);
}

/// A bind beneath a name keeps the records that the name answered with:
/// a terminal record there becomes a zone with those records as its own.
pub proof fn lemma_bound_beneath_keeps_parent(
    cache: Map<Seq<char>, EntryView>,
    parent: Seq<Seq<char>>,
    extra: Seq<Seq<char>>,
    entry: EntryView,
)
    requires
        parent.len() > 0,
        extra.len() > 0,
        !meets_record(cache, parent, parent.len() - 1),
    ensures
        lookup(bound(cache, extra + parent, entry), parent) == lookup(cache, parent),
{
    lemma_shared_with_longer(parent, extra);
    lemma_bound_elsewhere(cache, extra + parent, entry, parent);
}

/// The cache after a run of binds, each of a name and an entry, in order.
pub open spec fn bound_all(
    cache: Map<Seq<char>, EntryView>,
    bindings: Seq<(Seq<Seq<char>>, EntryView)>,
) -> Map<Seq<char>, EntryView>
    decreases bindings.len(),
{
    if bindings.len() == 0 {
        cache
    } else {
        bound(bound_all(cache, bindings.drop_last()), bindings.last().0, bindings.last().1)
    }
}

/// A bind at `name` leaves no terminal record on the way to `name`: every
/// label before the last one holds a zone.
pub proof fn lemma_bound_clears_the_way(
    cache: Map<Seq<char>, EntryView>,
    name: Seq<Seq<char>>,
    entry: EntryView,
)
    requires
        name.len() > 0,
    ensures
        !meets_record(bound(cache, name, entry), name, name.len() - 1),
    decreases name.len(),
{
    if name.len() > 1 {
        let zone = if cache.dom().contains(name.last()) {
            beneath(cache[name.last()])
        } else {
            Map::empty()
        };
        lemma_bound_clears_the_way(zone, name.drop_last(), entry);
    }
}

/// A bind at `name` puts no terminal record in the way of a name that is
/// neither `name` nor beneath it, short of that name's own last label.
pub proof fn lemma_bound_keeps_the_way_clear(
    cache: Map<Seq<char>, EntryView>,
    name: Seq<Seq<char>>,
    entry: EntryView,
    asked: Seq<Seq<char>>,
    steps: int,
)
    requires
        name.len() > 0,
        shared_from_root(asked, name) < name.len(),
        steps < asked.len(),
        !meets_record(cache, asked, steps),
    ensures
        !meets_record(bound(cache, name, entry), asked, steps),
    decreases name.len(),
{
    if steps > 0 && asked.last() == name.last() {
        let zone = if cache.dom().contains(name.last()) {
            beneath(cache[name.last()])
        } else {
            Map::empty()
        };
        lemma_bound_keeps_the_way_clear(
            zone,
            name.drop_last(),
            entry,
            asked.drop_last(),
            steps - 1,
        );
    }
}

/// After any run of binds, a name answers with the records of the entry
/// that was bound at it, as long as no later bind of the run was at the
/// name itself or at a name above it.
pub proof fn lemma_binding_survives(
    cache: Map<Seq<char>, EntryView>,
    bindings: Seq<(Seq<Seq<char>>, EntryView)>,
    k: int,
)
    requires
        0 <= k < bindings.len(),
        forall|j: int| 0 <= j < bindings.len() ==> (#[trigger] bindings[j]).0.len() > 0,
        forall|j: int|
            k < j < bindings.len() ==> shared_from_root(bindings[k].0, (#[trigger] bindings[j]).0)
                < bindings[j].0.len(),
    ensures
        lookup(bound_all(cache, bindings), bindings[k].0) == own_records(bindings[k].1),
        !meets_record(bound_all(cache, bindings), bindings[k].0, bindings[k].0.len() - 1),
    decreases bindings.len(),
{
    let name = bindings[k].0;
    let earlier = bindings.drop_last();
    let before = bound_all(cache, earlier);
    let last = bindings.last();
    assert(last == bindings[bindings.len() - 1]);
    if k == bindings.len() - 1 {
        lemma_bound_answers_exactly(before, name, last.1);
        lemma_bound_clears_the_way(before, name, last.1);
    } else {
        assert(earlier[k] == bindings[k]);
        assert forall|j: int| 0 <= j < earlier.len() implies (#[trigger] earlier[j]).0.len()
            > 0 by {
            assert(earlier[j] == bindings[j]);
        }
        assert forall|j: int| k < j < earlier.len() implies shared_from_root(
            earlier[k].0,
            (#[trigger] earlier[j]).0,
        ) < earlier[j].0.len() by {
            assert(earlier[j] == bindings[j]);
        }
        lemma_binding_survives(cache, earlier, k);
        lemma_bound_keeps_the_way_clear(before, last.0, last.1, name, name.len() - 1);
        lemma_bound_elsewhere(before, last.0, last.1, name);
        if shared_from_root(name, last.0) < name.len() {
            lemma_meets_record_sooner(
                before,
                name,
                shared_from_root(name, last.0) as int,
                name.len() - 1,
            );
        }
    }
}

/// A walk that meets no terminal record within some steps meets none
/// within fewer.
proof fn lemma_meets_record_sooner(
    cache: Map<Seq<char>, EntryView>,
    name: Seq<Seq<char>>,
    fewer: int,
    steps: int,
)
    requires
        fewer <= steps,
        !meets_record(cache, name, steps),
    ensures
        !meets_record(cache, name, fewer),
    decreases name.len(),
{
    if fewer > 0 && name.len() > 0 && cache.dom().contains(name.last()) {
        if let EntryView::Zone(_, zone) = cache[name.last()] {
            lemma_meets_record_sooner(zone, name.drop_last(), fewer - 1, steps - 1);
        }
    }
}

/// A name shares all of its labels with any name beneath it.
proof fn lemma_shared_with_longer(parent: Seq<Seq<char>>, extra: Seq<Seq<char>>)
    ensures
        shared_from_root(parent, extra + parent) == parent.len(),
    decreases parent.len(),
{
    if parent.len() > 0 {
        assert((extra + parent).drop_last() =~= extra + parent.drop_last());
        lemma_shared_with_longer(parent.drop_last(), extra);
    }
}

/// No label occurs twice among `entries`.
spec fn distinct_labels(entries: Seq<(String, CacheEntry)>) -> bool {
    forall|i: int, j: int|
        0 <= i < j < entries.len() ==> (#[trigger] entries[i]).0@ != (#[trigger] entries[j]).0@
}

/// The map of a list of entries holds exactly the labels of the list.
proof fn lemma_entries_map_dom(entries: Seq<(String, CacheEntry)>, label: Seq<char>)
    ensures
        entries_map(entries).dom().contains(label) <==> exists|i: int|
            0 <= i < entries.len() && (#[trigger] entries[i]).0@ == label,
    decreases entries.len(),
{
    if entries.len() > 0 {
        lemma_entries_map_dom(entries.drop_last(), label);
        if entries.last().0@ == label {
            assert(entries[entries.len() - 1].0@ == label);
        } else if entries_map(entries).dom().contains(label) {
            let i = choose|i: int|
                0 <= i < entries.drop_last().len() && (#[trigger] entries.drop_last()[i]).0@
                    == label;
            assert(entries[i].0@ == label);
        } else {
            assert forall|i: int| 0 <= i < entries.len() implies (#[trigger] entries[i]).0@
                != label by {
                if i < entries.len() - 1 {
                    assert(entries.drop_last()[i].0@ == entries[i].0@);
                }
            }
        }
    }
}

/// Where labels are distinct, the map of a list of entries gives each label
/// the entry listed with it.
proof fn lemma_entries_map_at(entries: Seq<(String, CacheEntry)>, i: int)
    requires
        distinct_labels(entries),
        0 <= i < entries.len(),
    ensures
        entries_map(entries).dom().contains(entries[i].0@),
        entries_map(entries)[entries[i].0@] == entry_view(entries[i].1),
    decreases entries.len(),
{
    if i < entries.len() - 1 {
        assert(entries[i].0@ != entries[entries.len() - 1].0@);
        assert(distinct_labels(entries.drop_last())) by {
            assert forall|a: int, b: int| 0 <= a < b < entries.drop_last().len() implies (
            #[trigger] entries.drop_last()[a]).0@ != (#[trigger] entries.drop_last()[b]).0@ by {
                assert(entries[a].0@ != entries[b].0@);
            }
        }
        lemma_entries_map_at(entries.drop_last(), i);
        assert(entries.drop_last()[i] == entries[i]);
    }
}

/// Replacing the entry listed with a label replaces it in the map.
proof fn lemma_entries_map_update(
    entries: Seq<(String, CacheEntry)>,
    i: int,
    label: String,
    entry: CacheEntry,
)
    requires
        distinct_labels(entries),
        0 <= i < entries.len(),
        label@ == entries[i].0@,
    ensures
        distinct_labels(entries.update(i, (label, entry))),
        entries_map(entries.update(i, (label, entry))) == entries_map(entries).insert(
            label@,
            entry_view(entry),
        ),
{
    let updated = entries.update(i, (label, entry));
    assert forall|a: int, b: int| 0 <= a < b < updated.len() implies (#[trigger] updated[a]).0@ != (
    #[trigger] updated[b]).0@ by {
        assert(entries[a].0@ != entries[b].0@);
    }
    let before = entries_map(entries).insert(label@, entry_view(entry));
    let after = entries_map(updated);
    assert forall|k: Seq<char>| before.dom().contains(k) <==> after.dom().contains(k) by {
        lemma_entries_map_dom(entries, k);
        lemma_entries_map_dom(updated, k);
        if before.dom().contains(k) {
            if k == label@ {
                assert(updated[i].0@ == k);
            } else {
                let j = choose|j: int| 0 <= j < entries.len() && (#[trigger] entries[j]).0@ == k;
                assert(updated[j].0@ == k);
            }
        }
        if after.dom().contains(k) {
            let j = choose|j: int| 0 <= j < updated.len() && (#[trigger] updated[j]).0@ == k;
            if j != i {
                assert(entries[j].0@ == k);
            }
        }
    }
    assert forall|k: Seq<char>| before.dom().contains(k) implies before[k] == after[k] by {
        lemma_entries_map_dom(updated, k);
        let j = choose|j: int| 0 <= j < updated.len() && (#[trigger] updated[j]).0@ == k;
        lemma_entries_map_at(updated, j);
        if j != i {
            assert(entries[j].0@ == k);
            lemma_entries_map_at(entries, j);
        }
    }
    assert(before =~= after);
}

/// Listing a new label with an entry adds it to the map.
proof fn lemma_entries_map_push(
    entries: Seq<(String, CacheEntry)>,
    label: String,
    entry: CacheEntry,
)
    requires
        distinct_labels(entries),
        !entries_map(entries).dom().contains(label@),
    ensures
        distinct_labels(entries.push((label, entry))),
        entries_map(entries.push((label, entry))) == entries_map(entries).insert(
            label@,
            entry_view(entry),
        ),
{
    let pushed = entries.push((label, entry));
    assert(pushed.drop_last() =~= entries);
    assert forall|a: int, b: int| 0 <= a < b < pushed.len() implies (#[trigger] pushed[a]).0@ != (
    #[trigger] pushed[b]).0@ by {
        lemma_entries_map_dom(entries, label@);
        if b < entries.len() {
            assert(entries[a].0@ != entries[b].0@);
        } else {
            assert(entries[a].0@ != label@);
        }
    }
}

impl Cache {
    #[verifier::type_invariant]
    spec fn well_formed(self) -> bool {
        distinct_labels(self.entries@)
    }

    /// A cache in which nothing is bound.
    pub fn new() -> (r: Self)
        ensures
            r@ == Map::<Seq<char>, EntryView>::empty(),
    {
        Cache { entries: Vec::new() }
    }

    /// Where `label` is listed at this level, if it is.
    fn position(&self, label: &String) -> (r: Option<usize>)
        ensures
            match r {
                Some(i) => i < self.entries.len() && self.entries[i as int].0@ == label@
                    && self@.dom().contains(label@) && self@[label@] == entry_view(
                    self.entries[i as int].1,
                ),
                None => !self@.dom().contains(label@),
            },
    {
        proof {
            use_type_invariant(self);
        }
        let mut i: usize = 0;
        while i < self.entries.len()
            invariant
                i <= self.entries.len(),
                distinct_labels(self.entries@),
                forall|j: int| 0 <= j < i ==> (#[trigger] self.entries[j]).0@ != label@,
            decreases self.entries.len() - i,
        {
            if self.entries[i].0 == *label {
                proof {
                    lemma_entries_map_at(self.entries@, i as int);
                }
                return Some(i);
            }
            i += 1;
        }
        proof {
            lemma_entries_map_dom(self.entries@, label@);
        }
        None
    }

    /// Binds `entry` at `domain`: see [`bound`].
    pub fn bind(&mut self, domain: Domain, entry: CacheEntry)
        requires
            domain@.len() > 0,
        ensures
            final(self)@ == bound(old(self)@, domain@, entry@),
        decreases domain@.len(),
    {
        proof {
            use_type_invariant(&*self);
        }
        let head = domain.head();
        let found = self.position(&head);
        let mut entries: Vec<(String, CacheEntry)> = Vec::new();
        core::mem::swap(&mut self.entries, &mut entries);
        let ghost before = entries@;
        match found {
            None => {
                let next = if domain.0.len() == 1 {
                    entry
                } else {
                    let mut zone = Cache::new();
                    zone.bind(domain.tail(), entry);
                    let own: Vec<ResourceRecordData> = Vec::new();
                    assert(data_views(own@) =~= Seq::empty());
                    CacheEntry::Zone(own, zone)
                };
                proof {
                    lemma_entries_map_push(before, head, next);
                }
                entries.push((head, next));
            },
            Some(i) => {
                if domain.0.len() == 1 {
                    proof {
                        lemma_entries_map_update(before, i as int, head, entry);
                    }
                    entries[i] = (head, entry);
                } else {
                    match &mut entries[i].1 {
                        CacheEntry::Zone(_, zone) => {
                            zone.bind(domain.tail(), entry);
                        },
                        CacheEntry::Record(records) => {
                            let own = clone_data(records);
                            let mut zone = Cache::new();
                            zone.bind(domain.tail(), entry);
                            entries[i] = (head, CacheEntry::Zone(own, zone));
                        },
                    }
                    proof {
                        lemma_entries_map_update(
                            before,
                            i as int,
                            entries[i as int].0,
                            entries[i as int].1,
                        );
                        assert(entries@ =~= before.update(i as int, entries[i as int]));
                    }
                }
            },
        }
        self.entries = entries;
    }

    /// What the cache holds for `domain`: see [`lookup`].
    pub fn resolve(&self, domain: Domain) -> (r: Vec<ResourceRecordData>)
        ensures
            data_views(r@) == lookup(self@, domain@),
        decreases domain@.len(),
    {
        if domain.0.len() == 0 {
            return Vec::new();
        }
        let head = domain.head();
        match self.position(&head) {
            None => Vec::new(),
            Some(i) => match &self.entries[i].1 {
                CacheEntry::Record(records) => clone_data(records),
                CacheEntry::Zone(own, zone) => {
                    if domain.0.len() == 1 {
                        clone_data(own)
                    } else {
                        zone.resolve(domain.tail())
                    }
                },
            },
        }
    }
}

} // verus!
