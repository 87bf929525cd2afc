use crate::models::{compare_spec, uid_of, ChangeView, EventChange, EventView, SAPEvent};
use vstd::prelude::*;

verus! {

/// One entry of a snapshot: an identity and the event stored under it.
pub type EntryView = (Seq<char>, EventView);

pub open spec fn keys_unique(s: Seq<EntryView>) -> bool {
    forall|i: int, j: int| 0 <= i < s.len() && 0 <= j < s.len() && i != j ==> s[i].0 != s[j].0
}

pub open spec fn has_key(s: Seq<EntryView>, k: Seq<char>) -> bool {
    exists|i: int| 0 <= i < s.len() && #[trigger] s[i].0 == k
}

pub open spec fn key_index(s: Seq<EntryView>, k: Seq<char>) -> int {
    choose|i: int| 0 <= i < s.len() && #[trigger] s[i].0 == k
}

/// The event stored under `k`.
pub open spec fn lookup(s: Seq<EntryView>, k: Seq<char>) -> EventView {
    s[key_index(s, k)].1
}

/// The snapshot as a mapping from identity to event.
pub open spec fn as_map(s: Seq<EntryView>) -> Map<Seq<char>, EventView> {
    Map::new(|k: Seq<char>| has_key(s, k), |k: Seq<char>| lookup(s, k))
}

/// Stores `e` under `k`: overwrites the entry with that key, or appends one.
pub open spec fn upsert(s: Seq<EntryView>, k: Seq<char>, e: EventView) -> Seq<EntryView> {
    if has_key(s, k) {
        s.update(key_index(s, k), (k, e))
    } else {
        s.push((k, e))
    }
}

/// The snapshot built from a list of events, each under its identity; a later
/// event overwrites an earlier one with the same identity.
pub open spec fn snapshot_of(events: Seq<EventView>) -> Seq<EntryView>
    decreases events.len(),
{
    if events.len() == 0 {
        seq![]
    } else {
        let e = events.last();
        upsert(snapshot_of(events.drop_last()), uid_of(e), e)
    }
}

/// The records for the entries of `olds`: `Deleted` where `news` lacks the
/// identity, `Modified` where it holds a different event under it.
pub open spec fn old_side(olds: Seq<EntryView>, news: Seq<EntryView>) -> Seq<ChangeView>
    decreases olds.len(),
{
    if olds.len() == 0 {
        seq![]
    } else {
        let rest = old_side(olds.drop_last(), news);
        let (k, e) = olds.last();
        if !has_key(news, k) {
            rest.push(ChangeView::Deleted(e))
        } else if compare_spec(e, lookup(news, k)).len() > 0 {
            rest.push(ChangeView::Modified(e, lookup(news, k), compare_spec(e, lookup(news, k))))
        } else {
            rest
        }
    }
}

/// The `Added` records for the entries of `news` whose identity `olds` lacks.
pub open spec fn new_side(news: Seq<EntryView>, olds: Seq<EntryView>) -> Seq<ChangeView>
    decreases news.len(),
{
    if news.len() == 0 {
        seq![]
    } else {
        let rest = new_side(news.drop_last(), olds);
        let (k, e) = news.last();
        if !has_key(olds, k) {
            rest.push(ChangeView::Added(e))
        } else {
            rest
        }
    }
}

/// The classified differences from snapshot `olds` to snapshot `news`.
pub open spec fn diff_spec(olds: Seq<EntryView>, news: Seq<EntryView>) -> Seq<ChangeView> {
    old_side(olds, news) + new_side(news, olds)
}

pub open spec fn change_views(v: Seq<EventChange>) -> Seq<ChangeView> {
    v.map_values(|c: EventChange| c@)
}

pub proof fn lemma_lookup_at(s: Seq<EntryView>, i: int)
    requires
        keys_unique(s),
        0 <= i < s.len(),
    ensures
        has_key(s, s[i].0),
        key_index(s, s[i].0) == i,
        lookup(s, s[i].0) == s[i].1,
{
    assert(s[i].0 == s[i].0);
    let j = key_index(s, s[i].0);
    assert(0 <= j < s.len() && s[j].0 == s[i].0);
}

pub proof fn lemma_upsert_unique(s: Seq<EntryView>, k: Seq<char>, e: EventView)
    requires
        keys_unique(s),
    ensures
        keys_unique(upsert(s, k, e)),
        has_key(upsert(s, k, e), k),
        lookup(upsert(s, k, e), k) == e,
{
    let r = upsert(s, k, e);
    if has_key(s, k) {
        let j = key_index(s, k);
        assert(r[j].0 == k);
        lemma_lookup_at(r, j);
    } else {
        assert(r[s.len() as int].0 == k);
        lemma_lookup_at(r, s.len() as int);
    }
}

pub proof fn lemma_snapshot_of_unique(events: Seq<EventView>)
    ensures
        keys_unique(snapshot_of(events)),
    decreases events.len(),
{
    if events.len() > 0 {
        lemma_snapshot_of_unique(events.drop_last());
        let e = events.last();
        lemma_upsert_unique(snapshot_of(events.drop_last()), uid_of(e), e);
    }
}

/// The current set of events, keyed by identity, identities unique.
pub struct Snapshot {
    entries: Vec<(String, SAPEvent)>,
}

impl View for Snapshot {
    type V = Seq<EntryView>;

    closed spec fn view(&self) -> Seq<EntryView> {
        self.entries@.map_values(|p: (String, SAPEvent)| (p.0@, p.1@))
    }
}

impl Snapshot {
    pub closed spec fn wf(&self) -> bool {
        keys_unique(self@)
    }

    /// A well-formed snapshot holds each identity at most once.
    pub proof fn lemma_wf_keys_unique(&self)
        ensures
            self.wf() <==> keys_unique(self@),
    {
    }

    pub fn new() -> (r: Snapshot)
        ensures
            r.wf(),
            r@ == Seq::<EntryView>::empty(),
    {
        let r = Snapshot { entries: Vec::new() };
        assert(r@ =~= Seq::<EntryView>::empty());
        r
    }

    pub fn len(&self) -> (r: usize)
        ensures
            r == self@.len(),
    {
        self.entries.len()
    }

    /// The position of the entry stored under `key`, if any.
    pub fn find(&self, key: &String) -> (r: Option<usize>)
        requires
            self.wf(),
        ensures
            r is None <==> !has_key(self@, key@),
            r matches Some(i) ==> i < self@.len() && self@[i as int].0 == key@ && i == key_index(
                self@,
                key@,
            ),
    {
        let mut i: usize = 0;
        while i < self.entries.len()
            invariant
                i <= self@.len(),
                self.wf(),
                self@.len() == self.entries@.len(),
                forall|j: int| 0 <= j < i ==> self@[j].0 != key@,
            decreases self.entries.len() - i,
        {
            if self.entries[i].0 == *key {
                proof {
                    lemma_lookup_at(self@, i as int);
                }
                return Some(i);
            }
            i += 1;
        }
        None
    }

    /// The event at position `i`.
    pub fn event_at(&self, i: usize) -> (r: &SAPEvent)
        requires
            i < self@.len(),
        ensures
            r@ == self@[i as int].1,
    {
        &self.entries[i].1
    }

    /// The identity at position `i`.
    pub fn key_at(&self, i: usize) -> (r: &String)
        requires
            i < self@.len(),
        ensures
            r@ == self@[i as int].0,
    {
        &self.entries[i].0
    }

    /// Stores `event` under `key`, replacing the event stored there before.
    pub fn upsert(&mut self, key: String, event: SAPEvent)
        requires
            old(self).wf(),
        ensures
            final(self).wf(),
            final(self)@ == upsert(old(self)@, key@, event@),
    {
        proof {
            lemma_upsert_unique(self@, key@, event@);
        }
        let ghost k = key@;
        let ghost e = event@;
        match self.find(&key) {
            Some(i) => {
                self.entries.set(i, (key, event));
            },
            None => {
                self.entries.push((key, event));
            },
        }
        assert(self@ =~= upsert(old(self)@, k, e));
    }

    /// Builds the snapshot of `events`, each stored under its identity.
    pub fn from_events(events: Vec<SAPEvent>) -> (r: Snapshot)
        ensures
            r.wf(),
            r@ == snapshot_of(events@.map_values(|e: SAPEvent| e@)),
    {
        let ghost evs = events@.map_values(|e: SAPEvent| e@);
        let mut r = Snapshot::new();
        for e in it: events
            invariant
                it.seq() == events@,
                evs == events@.map_values(|e: SAPEvent| e@),
                r.wf(),
                r@ == snapshot_of(evs.take(it.index() as int)),
            ensures
                r@ == snapshot_of(evs.take(evs.len() as int)),
        {
            let ghost i = it.index() as int;
            assert(evs.take(i + 1).drop_last() =~= evs.take(i));
            let key = e.generate_uid();
            r.upsert(key, e);
        }
        assert(evs.take(evs.len() as int) =~= evs);
        r
    }

    /// The events of this snapshot, in entry order.
    pub fn events(&self) -> (r: Vec<SAPEvent>)
        ensures
            r@.map_values(|e: SAPEvent| e@) == self@.map_values(|p: EntryView| p.1),
    {
        let mut r: Vec<SAPEvent> = Vec::new();
        let mut i: usize = 0;
        while i < self.entries.len()
            invariant
                i <= self@.len(),
                self@.len() == self.entries@.len(),
                r@.len() == i,
                forall|j: int| 0 <= j < i ==> #[trigger] r@[j]@ == self@[j].1,
            decreases self.entries.len() - i,
        {
            let c = self.entries[i].1.clone();
            assert(c@ == self@[i as int].1);
            r.push(c);
            i += 1;
        }
        assert(r@.map_values(|e: SAPEvent| e@) =~= self@.map_values(|p: EntryView| p.1));
        r
    }
}

/// Classifies every difference from snapshot `old` to snapshot `new`: one
/// record per identity that was removed, added, or whose event changed.
pub fn diff(old: &Snapshot, new: &Snapshot) -> (r: Vec<EventChange>)
    requires
        old.wf(),
        new.wf(),
    ensures
        change_views(r@) == diff_spec(old@, new@),
{
    let mut changes: Vec<EventChange> = Vec::new();
    let mut i: usize = 0;
    while i < old.len()
        invariant
            old.wf(),
            new.wf(),
            i <= old@.len(),
            change_views(changes@) == old_side(old@.take(i as int), new@),
        decreases old@.len() - i,
    {
        assert(old@.take(i as int + 1).drop_last() =~= old@.take(i as int));
        let ghost before = changes@;
        let previous = old.event_at(i);
        match new.find(old.key_at(i)) {
            None => {
                changes.push(EventChange::Deleted(Box::new(previous.clone())));
            },
            Some(j) => {
                let current = new.event_at(j);
                let change_list = previous.compare(current);
                if change_list.len() > 0 {
                    changes.push(
                        EventChange::Modified {
                            previous: Box::new(previous.clone()),
                            current: Box::new(current.clone()),
                            changes: change_list,
                        },
                    );
                }
            },
        }
        assert(change_views(changes@) =~= old_side(old@.take(i as int + 1), new@));
        i += 1;
    }
    assert(old@.take(i as int) =~= old@);
    let mut i: usize = 0;
    while i < new.len()
        invariant
            old.wf(),
            new.wf(),
            i <= new@.len(),
            change_views(changes@) == old_side(old@, new@) + new_side(new@.take(i as int), old@),
        decreases new@.len() - i,
    {
        assert(new@.take(i as int + 1).drop_last() =~= new@.take(i as int));
        assert(new@.take(i as int + 1).last() == new@[i as int]);
        let ghost head = old_side(old@, new@);
        let ghost tail = new_side(new@.take(i as int), old@);
        if old.find(new.key_at(i)).is_none() {
            let added = EventChange::Added(Box::new(new.event_at(i).clone()));
            let ghost a = added@;
            changes.push(added);
            assert(change_views(changes@) =~= change_views(changes@.drop_last()).push(a));
            assert(changes@.drop_last() =~= changes@.take(changes@.len() - 1));
            assert((head + tail).push(a) =~= head + tail.push(a));
        }
        assert(change_views(changes@) =~= old_side(old@, new@) + new_side(new@.take(i as int + 1), old@));
        i += 1;
    }
    assert(new@.take(i as int) =~= new@);
    changes
}

} // verus!
