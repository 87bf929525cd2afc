use crate::models::{normalized, EventView, SAPEvent};
use crate::snapshot::{change_views, diff, diff_spec, snapshot_of, EntryView, Snapshot};
use crate::models::EventChange;
use vstd::prelude::*;

verus! {

pub open spec fn event_views(v: Seq<SAPEvent>) -> Seq<EventView> {
    v.map_values(|e: SAPEvent| e@)
}

/// Repairs the text fields of every event, keeping their order.
pub fn fix_encoding_all(events: Vec<SAPEvent>) -> (r: Vec<SAPEvent>)
    ensures
        event_views(r@) == event_views(events@).map_values(|e: EventView| normalized(e)),
{
    let ghost evs = events@;
    let mut r: Vec<SAPEvent> = Vec::new();
    for e in it: events
        invariant
            it.seq() == evs,
            r@.len() == it.index(),
            forall|j: int| 0 <= j < r@.len() ==> #[trigger] r@[j]@ == normalized(evs[j]@),
        ensures
            r@.len() == evs.len(),
    {
        r.push(e.fix_encoding());
    }
    assert(event_views(r@) =~= event_views(evs).map_values(|e: EventView| normalized(e)));
    r
}

/// The service's configuration and the current snapshot. Replacing the
/// snapshot takes `&mut self`, so a reader holding `&self` never sees it
/// half-replaced; callers share it behind a reader/writer lock.
pub struct AppState {
    pub sap_url: String,
    pub cookie: String,
    pub discord_webhook: Option<String>,
    pub events: Snapshot,
}

impl AppState {
    pub open spec fn wf(&self) -> bool {
        self.events.wf()
    }

    /// The current snapshot.
    pub open spec fn current(&self) -> Seq<EntryView> {
        self.events@
    }

    /// A state with the given configuration and an empty snapshot.
    pub fn new(sap_url: String, cookie: String, discord_webhook: Option<String>) -> (r: AppState)
        ensures
            r.wf(),
            r.current() == Seq::<EntryView>::empty(),
            r.sap_url == sap_url,
            r.cookie == cookie,
            r.discord_webhook == discord_webhook,
    {
        AppState { sap_url, cookie, discord_webhook, events: Snapshot::new() }
    }

    /// Installs the snapshot of `new_events` as current and returns how it
    /// differs from the snapshot it replaces.
    pub fn update_events(&mut self, new_events: Vec<SAPEvent>) -> (r: Vec<EventChange>)
        requires
            old(self).wf(),
        ensures
            final(self).wf(),
            final(self).current() == snapshot_of(new_events@.map_values(|e: SAPEvent| e@)),
            change_views(r@) == diff_spec(
                old(self).current(),
                snapshot_of(new_events@.map_values(|e: SAPEvent| e@)),
            ),
            final(self).sap_url == old(self).sap_url,
            final(self).cookie == old(self).cookie,
            final(self).discord_webhook == old(self).discord_webhook,
    {
        let fresh = Snapshot::from_events(new_events);
        let changes = diff(&self.events, &fresh);
        self.events = fresh;
        changes
    }

    /// A copy of the events of the current snapshot, in entry order.
    pub fn current_events(&self) -> (r: Vec<SAPEvent>)
        ensures
            r@.map_values(|e: SAPEvent| e@) == self.current().map_values(|p: EntryView| p.1),
    {
        self.events.events()
    }

    /// One reconciliation cycle. Without a fetched list the state is left as
    /// it is. Otherwise the events are repaired and installed, and the changes
    /// are returned unless `notify` is false, as for the silent first cycle.
    pub fn run_cycle(&mut self, fetched: Option<Vec<SAPEvent>>, notify: bool) -> (r: Vec<EventChange>)
        requires
            old(self).wf(),
        ensures
            final(self).wf(),
            fetched is None ==> *final(self) == *old(self) && r@.len() == 0,
            fetched matches Some(evs) ==> {
                let installed = snapshot_of(
                    event_views(evs@).map_values(|e: EventView| normalized(e)),
                );
                &&& final(self).current() == installed
                &&& final(self).sap_url == old(self).sap_url
                &&& final(self).cookie == old(self).cookie
                &&& final(self).discord_webhook == old(self).discord_webhook
                &&& change_views(r@) == if notify {
                    diff_spec(old(self).current(), installed)
                } else {
                    Seq::<crate::models::ChangeView>::empty()
                }
            },
    {
        match fetched {
            None => Vec::new(),
            Some(events) => {
                let changes = self.update_events(fix_encoding_all(events));
                if notify {
                    changes
                } else {
                    let none: Vec<EventChange> = Vec::new();
                    assert(change_views(none@) =~= Seq::<crate::models::ChangeView>::empty());
                    none
                }
            },
        }
    }
}

} // verus!
