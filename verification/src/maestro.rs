//! The maestro: the central server's records, and the decisions it takes
//! on requests and heartbeats.
pub mod control;
pub mod dto;
pub mod models;

use std::sync::Arc;
use tokio::sync::mpsc::UnboundedReceiver;
use vstd::prelude::*;
use crate::maestro::dto::SymphonyWithNotes;
use crate::maestro::models::{Note, Principal};
use crate::watcher::field_selector::FieldSelector;
use crate::watcher::{notified, Event, SubscriberView, Watcher};

verus! {

/// The maestro's configuration.
pub struct MaestroConfig {
    pub server_address: String,
}

/// A placeholder state for routes that need none.
#[derive(Clone)]
pub struct SampleState {}

/// The query of a request for the list of notes.
pub struct GetNotesQueryParams {
    pub watch: Option<bool>,
}

impl GetNotesQueryParams {
    /// Whether the client asks to keep watching (it does not unless it says so).
    pub fn watching(&self) -> (r: bool)
        ensures
            r == (self.watch == Some(true)),
    {
        match self.watch {
            Some(w) => w,
            None => false,
        }
    }
}

/// One watcher for each kind of record.
pub struct WatchManager {
    note_watcher: Watcher<Note>,
    symphony_watcher: Watcher<SymphonyWithNotes>,
    principal_watcher: Watcher<Principal>,
}

impl WatchManager {
    pub closed spec fn note_subscribers(&self) -> Seq<SubscriberView<Note>> {
        self.note_watcher.subscribers()
    }

    pub closed spec fn symphony_subscribers(&self) -> Seq<SubscriberView<SymphonyWithNotes>> {
        self.symphony_watcher.subscribers()
    }

    pub closed spec fn principal_subscribers(&self) -> Seq<SubscriberView<Principal>> {
        self.principal_watcher.subscribers()
    }

    pub fn new() -> (r: Self)
        ensures
            r.note_subscribers() == Seq::<SubscriberView<Note>>::empty(),
            r.symphony_subscribers() == Seq::<SubscriberView<SymphonyWithNotes>>::empty(),
            r.principal_subscribers() == Seq::<SubscriberView<Principal>>::empty(),
    {
        Self { note_watcher: Watcher::new(), symphony_watcher: Watcher::new(), principal_watcher: Watcher::new() }
    }

    /// Tells the note watchers of `event`, as `Watcher::notify` does.
    pub fn notify_note(&mut self, event: Event<Note>)
        ensures
            notified(old(self).note_subscribers(), event, final(self).note_subscribers()),
            final(self).symphony_subscribers() == old(self).symphony_subscribers(),
            final(self).principal_subscribers() == old(self).principal_subscribers(),
    {
        self.note_watcher.notify(event);
    }

    /// Tells the symphony watchers of `event`, as `Watcher::notify` does.
    pub fn notify_symphony(&mut self, event: Event<SymphonyWithNotes>)
        ensures
            notified(old(self).symphony_subscribers(), event, final(self).symphony_subscribers()),
            final(self).note_subscribers() == old(self).note_subscribers(),
            final(self).principal_subscribers() == old(self).principal_subscribers(),
    {
        self.symphony_watcher.notify(event);
    }

    /// Tells the principal watchers of `event`, as `Watcher::notify` does.
    pub fn notify_principal(&mut self, event: Event<Principal>)
        ensures
            notified(old(self).principal_subscribers(), event, final(self).principal_subscribers()),
            final(self).note_subscribers() == old(self).note_subscribers(),
            final(self).symphony_subscribers() == old(self).symphony_subscribers(),
    {
        self.principal_watcher.notify(event);
    }

    pub fn subscribe_note(&mut self, field_selector: FieldSelector) -> (r: UnboundedReceiver<Arc<Event<Note>>>)
        ensures
            final(self).note_subscribers() == old(self).note_subscribers().push(
                SubscriberView { conditions: field_selector@, handed: Seq::empty() },
            ),
            final(self).symphony_subscribers() == old(self).symphony_subscribers(),
            final(self).principal_subscribers() == old(self).principal_subscribers(),
    {
        self.note_watcher.subscribe(field_selector)
    }

    pub fn subscribe_symphony(&mut self, field_selector: FieldSelector) -> (r: UnboundedReceiver<Arc<Event<SymphonyWithNotes>>>)
        ensures
            final(self).symphony_subscribers() == old(self).symphony_subscribers().push(
                SubscriberView { conditions: field_selector@, handed: Seq::empty() },
            ),
            final(self).note_subscribers() == old(self).note_subscribers(),
            final(self).principal_subscribers() == old(self).principal_subscribers(),
    {
        self.symphony_watcher.subscribe(field_selector)
    }

    pub fn subscribe_principal(&mut self, field_selector: FieldSelector) -> (r: UnboundedReceiver<Arc<Event<Principal>>>)
        ensures
            final(self).principal_subscribers() == old(self).principal_subscribers().push(
                SubscriberView { conditions: field_selector@, handed: Seq::empty() },
            ),
            final(self).note_subscribers() == old(self).note_subscribers(),
            final(self).symphony_subscribers() == old(self).symphony_subscribers(),
    {
        self.principal_watcher.subscribe(field_selector)
    }
}

impl Default for WatchManager {
    fn default() -> (r: Self)
        ensures
            r.note_subscribers() == Seq::<SubscriberView<Note>>::empty(),
            r.symphony_subscribers() == Seq::<SubscriberView<SymphonyWithNotes>>::empty(),
            r.principal_subscribers() == Seq::<SubscriberView<Principal>>::empty(),
    {
        Self::new()
    }
}

} // verus!
