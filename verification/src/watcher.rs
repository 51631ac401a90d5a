//! Watching resources: subscribers register a field selector and receive
//! every event whose resource satisfies it.
pub mod field_selector;

use std::sync::Arc;
use tokio::sync::mpsc::{UnboundedReceiver, UnboundedSender};
use vstd::prelude::*;
use vstd::string::*;
use crate::watcher::field_selector::{
    condition_spec, conditions_view, FieldCondition, FieldConditionView, FieldSelector, Operator,
};

verus! {

#[verifier::external_type_specification]
#[verifier::external_body]
#[verifier::reject_recursive_types(T)]
pub struct ExUnboundedSender<T>(tokio::sync::mpsc::UnboundedSender<T>);

#[verifier::external_type_specification]
#[verifier::external_body]
#[verifier::reject_recursive_types(T)]
pub struct ExUnboundedReceiver<T>(tokio::sync::mpsc::UnboundedReceiver<T>);

/// Creates a channel with `tokio::sync::mpsc::unbounded_channel`; the pair
/// is opaque here and nothing is stated of it.
#[verifier::external_body]
fn open_channel<T>() -> (UnboundedSender<T>, UnboundedReceiver<T>) {
    tokio::sync::mpsc::unbounded_channel()
}

/// Asks `UnboundedSender::is_closed` whether the receiving half has gone.
/// That depends on the receiver's owner, so nothing is stated of the answer.
#[verifier::external_body]
fn receiver_gone<T>(sender: &UnboundedSender<T>) -> bool {
    sender.is_closed()
}

/// Hands `message` to `UnboundedSender::send` and tells whether it was
/// accepted (`Ok`); that depends on the receiving half, so nothing is stated.
#[verifier::external_body]
fn deliver<T>(sender: &UnboundedSender<T>, message: T) -> bool {
    sender.send(message).is_ok()
}

/// `Arc::clone`: a second handle to the same value.
#[verifier::external_body]
fn share<T>(a: &Arc<T>) -> (r: Arc<T>)
    ensures
        r == *a,
{
    Arc::clone(a)
}

/// A resource whose fields can be looked up by name, so that field
/// selectors can be applied to it.
pub trait Watchable {
    /// The characters of the field called `field_name`, if the resource has one.
    spec fn field_value(&self, field_name: Seq<char>) -> Option<Seq<char>>;

    fn get_field_value(&self, field_name: &str) -> (r: Option<String>)
        ensures
            opt_string_view(r) == self.field_value(field_name@),
    ;
}

pub open spec fn opt_string_view(o: Option<String>) -> Option<Seq<char>> {
    match o {
        Some(s) => Some(s@),
        None => None,
    }
}

/// A field's value satisfies a condition: the field is present, and equals
/// (or differs from) the condition's value.
pub open spec fn condition_holds(value: Option<Seq<char>>, c: FieldConditionView) -> bool {
    match value {
        Some(v) => match c.operator {
            Operator::Equals => v == c.value,
            Operator::NotEquals => v != c.value,
        },
        None => false,
    }
}

/// A resource satisfies every condition of a selector.
pub open spec fn selector_matches<T: Watchable>(resource: &T, conditions: Seq<FieldConditionView>) -> bool {
    forall|i: int| 0 <= i < conditions.len() ==> condition_holds(
        resource.field_value(#[trigger] conditions[i].field_name),
        conditions[i],
    )
}

#[derive(Clone, Copy, Debug, PartialEq, Eq, Structural)]
pub enum EventType {
    Added,
    Modified,
    Deleted,
}

/// The name of an event type as it appears on the wire.
pub open spec fn event_type_name(t: EventType) -> Seq<char> {
    match t {
        EventType::Added => "added"@,
        EventType::Modified => "modified"@,
        EventType::Deleted => "deleted"@,
    }
}

impl EventType {
    pub fn to_string(&self) -> (r: String)
        ensures
            r@ == event_type_name(*self),
    {
        match self {
            EventType::Added => "added".to_owned(),
            EventType::Modified => "modified".to_owned(),
            EventType::Deleted => "deleted".to_owned(),
        }
    }
}

pub struct Event<T> {
    pub event_type: EventType,
    pub resource: T,
}

#[verifier::reject_recursive_types(T)]
struct Subscriber<T> {
    field_conditions: Vec<FieldCondition>,
    sender: UnboundedSender<Arc<Event<T>>>,
    /// The events handed to `sender` so far, in order.
    handed: Ghost<Seq<Event<T>>>,
}

/// The value that a shared handle points to.
pub open spec fn shared_value<A>(a: &Arc<A>) -> A {
    **a
}

impl<T> Subscriber<T> {
    /// Hands `event` to the subscriber's channel, records it as handed, and
    /// tells whether the channel accepted it.
    fn hand(&mut self, event: &Arc<Event<T>>) -> (sent: bool)
        ensures
            final(self).field_conditions == old(self).field_conditions,
            final(self).handed@ == old(self).handed@.push(**event),
    {
        let sent = deliver(&self.sender, share(event));
        proof {
            self.handed@ = self.handed@.push(shared_value(event));
        }
        sent
    }
}

/// What is known of a subscriber: its selector, and the events handed to its
/// channel since it subscribed, in order.
#[verifier::reject_recursive_types(T)]
pub struct SubscriberView<T> {
    pub conditions: Seq<FieldConditionView>,
    pub handed: Seq<Event<T>>,
}

/// A subscriber stays after an event unless its receiver has gone, or the
/// event was meant for it and could not be delivered.
pub open spec fn subscriber_kept(receiver_gone: bool, selected: bool, delivered: bool) -> bool {
    !receiver_gone && (!selected || delivered)
}

/// The items of `s` at the positions where `keep` holds, in order.
pub open spec fn select<A>(s: Seq<A>, keep: Seq<bool>) -> Seq<A>
    decreases s.len(),
{
    if s.len() == 0 {
        Seq::empty()
    } else {
        let rest = select(s.drop_last(), keep.take(s.len() - 1));
        if keep[s.len() - 1] {
            rest.push(s.last())
        } else {
            rest
        }
    }
}

/// For each subscriber, whether its selector selects `resource`.
pub open spec fn selection<T: Watchable>(selectors: Seq<Seq<FieldConditionView>>, resource: &T) -> Seq<bool> {
    Seq::new(selectors.len(), |i: int| selector_matches(resource, selectors[i]))
}

/// For each subscriber, whether it stays, given the channel's answers (its
/// receiver had gone; the event reached it) and whether it was selected.
pub open spec fn kept_flags(gone: Seq<bool>, selected: Seq<bool>, delivered: Seq<bool>) -> Seq<bool> {
    Seq::new(gone.len(), |i: int| subscriber_kept(gone[i], selected[i], delivered[i]))
}

/// For each subscriber, whether the event is handed to it: its receiver had
/// not gone and its selector selects the resource.
pub open spec fn targets(gone: Seq<bool>, selected: Seq<bool>) -> Seq<bool> {
    Seq::new(gone.len(), |i: int| !gone[i] && selected[i])
}

/// The subscribers, with `event` handed to those where `to` holds.
pub open spec fn hand_to<T>(subscribers: Seq<SubscriberView<T>>, to: Seq<bool>, event: Event<T>) -> Seq<SubscriberView<T>> {
    Seq::new(
        subscribers.len(),
        |i: int|
            if to[i] {
                SubscriberView { conditions: subscribers[i].conditions, handed: subscribers[i].handed.push(event) }
            } else {
                subscribers[i]
            },
    )
}

/// The selectors of a list of subscribers, in order.
pub open spec fn selectors_of<T>(subscribers: Seq<SubscriberView<T>>) -> Seq<Seq<FieldConditionView>> {
    subscribers.map_values(|v: SubscriberView<T>| v.conditions)
}

/// The subscribers after `event`, for given answers of the channel: the
/// event is handed, once, to exactly the subscribers whose receiver had not
/// gone and whose selector selects the resource (no other subscriber is
/// handed anything); it reached only subscribers it was handed to; and the
/// subscribers that stay are those that `subscriber_kept` keeps, in order.
pub open spec fn notify_outcome<T: Watchable>(
    before: Seq<SubscriberView<T>>,
    event: Event<T>,
    gone: Seq<bool>,
    delivered: Seq<bool>,
    after: Seq<SubscriberView<T>>,
) -> bool {
    let selected = selection(selectors_of(before), &event.resource);
    &&& gone.len() == before.len()
    &&& delivered.len() == before.len()
    &&& forall|i: int| 0 <= i < delivered.len() ==> #[trigger] delivered[i] ==> targets(gone, selected)[i]
    &&& after == select(hand_to(before, targets(gone, selected), event), kept_flags(gone, selected, delivered))
}

/// The subscribers after `event`, for the answers that the channel gave.
pub open spec fn notified<T: Watchable>(before: Seq<SubscriberView<T>>, event: Event<T>, after: Seq<SubscriberView<T>>) -> bool {
    exists|gone: Seq<bool>, delivered: Seq<bool>| #[trigger] notify_outcome(before, event, gone, delivered, after)
}

/// Selecting commutes with mapping.
proof fn lemma_select_map<A, B>(s: Seq<A>, keep: Seq<bool>, f: spec_fn(A) -> B)
    requires
        keep.len() == s.len(),
    ensures
        select(s.map_values(f), keep) == select(s, keep).map_values(f),
    decreases s.len(),
{
    if s.len() > 0 {
        let k = keep.take(s.len() - 1);
        lemma_select_map(s.drop_last(), k, f);
        assert(s.map_values(f).drop_last() =~= s.drop_last().map_values(f));
        if keep[s.len() - 1] {
            assert(select(s, keep).map_values(f) =~= select(s.drop_last(), k).map_values(f).push(f(s.last())));
        }
    } else {
        assert(select(s, keep).map_values(f) =~= Seq::<B>::empty());
    }
}

#[verifier::reject_recursive_types(T)]
pub struct Watcher<T> where T: Watchable {
    subscribers: Vec<Subscriber<T>>,
}

impl<T> Watcher<T> where T: Watchable {
    /// The current subscribers, in the order they subscribed.
    pub closed spec fn subscribers(&self) -> Seq<SubscriberView<T>> {
        self.subscribers@.map_values(
            |s: Subscriber<T>| SubscriberView { conditions: conditions_view(s.field_conditions@), handed: s.handed@ },
        )
    }

    /// The selectors of the current subscribers, in the order they subscribed.
    pub open spec fn selectors(&self) -> Seq<Seq<FieldConditionView>> {
        selectors_of(self.subscribers())
    }

    pub fn new() -> (r: Self)
        ensures
            r.subscribers() == Seq::<SubscriberView<T>>::empty(),
    {
        let r = Self { subscribers: Vec::new() };
        assert(r.subscribers() =~= Seq::<SubscriberView<T>>::empty());
        r
    }

    /// Registers a subscriber with the conditions of `field_selector`, that
    /// has been handed nothing yet; the receiver that is returned gets the
    /// events handed to it.
    pub fn subscribe(&mut self, field_selector: FieldSelector) -> (r: UnboundedReceiver<Arc<Event<T>>>)
        ensures
            final(self).subscribers() == old(self).subscribers().push(
                SubscriberView { conditions: field_selector@, handed: Seq::empty() },
            ),
    {
        let field_conditions = field_selector.conditions;
        let (sender, receiver) = open_channel();
        self.subscribers.push(Subscriber { field_conditions, sender, handed: Ghost(Seq::empty()) });
        assert(self.subscribers() =~= old(self).subscribers().push(
            SubscriberView { conditions: field_selector@, handed: Seq::empty() },
        ));
        receiver
    }
    /// Whether `resource` satisfies every condition.
    pub fn apply_field_conditions(resource: &T, conditions: &Vec<FieldCondition>) -> (r: bool)
        ensures
            r == selector_matches(resource, conditions_view(conditions@)),
    {
        let ghost cv = conditions_view(conditions@);
        let mut i: usize = 0;
        while i < conditions.len()
            invariant
                i <= conditions.len(),
                cv == conditions_view(conditions@),
                forall|j: int| 0 <= j < i ==> condition_holds(resource.field_value(#[trigger] cv[j].field_name), cv[j]),
            decreases conditions.len() - i,
        {
            let condition = &conditions[i];
            let field_value = resource.get_field_value(condition.field_name.as_str());
            assert(cv[i as int] == condition@);
            match (&condition.operator, field_value) {
                (Operator::Equals, Some(value)) => {
                    if value != condition.value {
                        assert(!condition_holds(resource.field_value(cv[i as int].field_name), cv[i as int]));
                        return false;
                    }
                },
                (Operator::NotEquals, Some(value)) => {
                    if value == condition.value {
                        assert(!condition_holds(resource.field_value(cv[i as int].field_name), cv[i as int]));
                        return false;
                    }
                },
                _ => {
                    assert(!condition_holds(resource.field_value(cv[i as int].field_name), cv[i as int]));
                    return false;
                },
            }
            i = i + 1;
        }
        true
    }

    /// For each subscriber, in order, whether its conditions select `resource`.
    pub fn selected_subscribers(&self, resource: &T) -> (r: Vec<bool>)
        ensures
            r@ == selection(self.selectors(), resource),
    {
        let ghost sel = self.selectors();
        let mut r: Vec<bool> = Vec::new();
        let mut i: usize = 0;
        while i < self.subscribers.len()
            invariant
                i <= self.subscribers@.len(),
                sel == self.selectors(),
                r@ =~= selection(sel, resource).take(i as int),
            decreases self.subscribers@.len() - i,
        {
            assert(sel[i as int] == conditions_view(self.subscribers@[i as int].field_conditions@));
            let m = Self::apply_field_conditions(resource, &self.subscribers[i].field_conditions);
            r.push(m);
            i = i + 1;
        }
        assert(selection(sel, resource).take(sel.len() as int) =~= selection(sel, resource));
        r
    }

    /// Keeps, in order, the subscribers that `subscriber_kept` keeps, given
    /// for each whether its receiver had gone, whether it was selected, and
    /// whether the event reached it.
    pub fn retain_subscribers(&mut self, gone: &Vec<bool>, selected: &Vec<bool>, delivered: &Vec<bool>)
        requires
            gone@.len() == old(self).subscribers().len(),
            selected@.len() == old(self).subscribers().len(),
            delivered@.len() == old(self).subscribers().len(),
        ensures
            final(self).subscribers() == select(old(self).subscribers(), kept_flags(gone@, selected@, delivered@)),
    {
        let ghost keep = kept_flags(gone@, selected@, delivered@);
        let mut remaining: Vec<Subscriber<T>> = Vec::new();
        std::mem::swap(&mut remaining, &mut self.subscribers);
        let ghost all = remaining@;
        // Reverse the list, so that popping yields the subscribers in order.
        let mut pending: Vec<Subscriber<T>> = Vec::new();
        while remaining.len() > 0
            invariant
                remaining@ == all.take(remaining@.len() as int),
                pending@.len() == all.len() - remaining@.len(),
                forall|k: int| 0 <= k < pending@.len() ==> #[trigger] pending@[k] == all[all.len() - 1 - k],
            decreases remaining@.len(),
        {
            let s = remaining.pop().unwrap();
            pending.push(s);
            assert(remaining@ =~= all.take(remaining@.len() as int));
        }
        let n: usize = pending.len();
        let mut kept: Vec<Subscriber<T>> = Vec::new();
        let mut i: usize = 0;
        while pending.len() > 0
            invariant
                n == all.len(),
                i == n - pending@.len(),
                gone@.len() == n,
                selected@.len() == n,
                delivered@.len() == n,
                keep == kept_flags(gone@, selected@, delivered@),
                forall|k: int| 0 <= k < pending@.len() ==> #[trigger] pending@[k] == all[n - 1 - k],
                kept@ == select(all.take(i as int), keep.take(i as int)),
            decreases pending@.len(),
        {
            let subscriber = pending.pop().unwrap();
            assert(subscriber == all[i as int]);
            let stays = !gone[i] && (!selected[i] || delivered[i]);
            proof {
                let t = all.take(i + 1);
                assert(t.last() == all[i as int]);
                assert(t.drop_last() =~= all.take(i as int));
                assert(keep.take(i + 1).take(i as int) =~= keep.take(i as int));
                assert(keep.take(i + 1)[i as int] == stays);
            }
            if stays {
                kept.push(subscriber);
            }
            i = i + 1;
        }
        proof {
            assert(all.take(n as int) =~= all);
            assert(keep.take(n as int) =~= keep);
            lemma_select_map(
                all,
                keep,
                |s: Subscriber<T>| SubscriberView { conditions: conditions_view(s.field_conditions@), handed: s.handed@ },
            );
        }
        self.subscribers = kept;
    }

    /// Drops the subscribers whose receiver has gone; hands the event to each
    /// other subscriber whose conditions the resource satisfies (each gets a
    /// handle to the same event), and drops those that it could not reach.
    /// Whether a receiver has gone, and whether a send succeeds, depend on the
    /// receivers' owners: `notify_outcome` says what happens for each of their
    /// answers, and the subscribers that stay are those that
    /// `retain_subscribers` keeps for them.
    pub fn notify(&mut self, event: Event<T>)
        ensures
            notified(old(self).subscribers(), event, final(self).subscribers()),
    {
        let ghost before = self.subscribers();
        let ghost ev = event;
        let event = Arc::new(event);
        let selected = self.selected_subscribers(&event.resource);
        let mut gone: Vec<bool> = Vec::new();
        let mut delivered: Vec<bool> = Vec::new();
        let mut i: usize = 0;
        while i < self.subscribers.len()
            invariant
                i <= self.subscribers@.len(),
                *event == ev,
                self.subscribers().len() == before.len(),
                selected@ == selection(selectors_of(before), &ev.resource),
                gone@.len() == i,
                delivered@.len() == i,
                forall|j: int| 0 <= j < i ==> #[trigger] delivered@[j] ==> !gone@[j] && selected@[j],
                forall|j: int| 0 <= j < i ==> #[trigger] self.subscribers()[j] == (if !gone@[j] && selected@[j] {
                    SubscriberView { conditions: before[j].conditions, handed: before[j].handed.push(ev) }
                } else {
                    before[j]
                }),
                forall|j: int| i <= j < before.len() ==> #[trigger] self.subscribers()[j] == before[j],
            decreases self.subscribers@.len() - i,
        {
            let is_gone = receiver_gone(&self.subscribers[i].sender);
            let mut sent = false;
            if !is_gone && selected[i] {
                let ghost prior = self.subscribers@;
                let ghost prior_view = self.subscribers();
                assert(prior_view[i as int] == before[i as int]);
                sent = self.subscribers[i].hand(&event);
                proof {
                    assert(self.subscribers@ == prior.update(i as int, self.subscribers@[i as int]));
                    assert(shared_value(&event) == ev);
                    assert forall|j: int| 0 <= j < before.len() && j != i implies #[trigger] self.subscribers()[j]
                        == prior_view[j] by {
                        assert(self.subscribers@[j] == prior[j]);
                    }
                    assert(self.subscribers()[i as int] == SubscriberView {
                        conditions: before[i as int].conditions,
                        handed: before[i as int].handed.push(ev),
                    });
                }
            } else {
                assert(self.subscribers()[i as int] == before[i as int]);
            }
            gone.push(is_gone);
            delivered.push(sent);
            i = i + 1;
        }
        let ghost handed = hand_to(before, targets(gone@, selected@), ev);
        assert(self.subscribers() =~= handed);
        assert(selectors_of(handed) =~= selectors_of(before));
        self.retain_subscribers(&gone, &selected, &delivered);
        assert(notify_outcome(before, ev, gone@, delivered@, self.subscribers()));
    }
}

impl<T> Default for Watcher<T> where T: Watchable {
    fn default() -> (r: Self)
        ensures
            r.subscribers() == Seq::<SubscriberView<T>>::empty(),
    {
        Self::new()
    }
}

/// Law: a subscriber with an empty selector whose receiver has not gone is
/// handed every event, and stays exactly when the event reached it.
pub proof fn law_empty_selector_handed_every_event<T: Watchable>(
    before: Seq<SubscriberView<T>>,
    event: Event<T>,
    gone: Seq<bool>,
    delivered: Seq<bool>,
    after: Seq<SubscriberView<T>>,
    i: int,
)
    requires
        notify_outcome(before, event, gone, delivered, after),
        0 <= i < before.len(),
        before[i].conditions == Seq::<FieldConditionView>::empty(),
        !gone[i],
    ensures
        ({
            let selected = selection(selectors_of(before), &event.resource);
            &&& hand_to(before, targets(gone, selected), event)[i].handed == before[i].handed.push(event)
            &&& kept_flags(gone, selected, delivered)[i] == delivered[i]
        }),
{
    assert(selectors_of(before)[i] == before[i].conditions);
}

/// Law: a selector without conditions selects every resource.
pub proof fn law_empty_selector_matches_all<T: Watchable>(resource: &T)
    ensures
        selector_matches(resource, Seq::<FieldConditionView>::empty()),
{
}

/// Law: a selector built with the single condition `field == value`
/// selects exactly the resources whose field holds `value`.
pub proof fn law_equals_selector<T: Watchable>(resource: &T, field: Seq<char>, value: Seq<char>)
    ensures
        selector_matches(resource, seq![condition_spec(field, Operator::Equals, value)])
            <==> resource.field_value(field) == Some(value),
{
    let c = seq![condition_spec(field, Operator::Equals, value)];
    if selector_matches(resource, c) {
        assert(condition_holds(resource.field_value(c[0].field_name), c[0]));
    }
}

/// Law: a selector with the single condition `field != value` selects
/// exactly the resources that have the field with another value.
pub proof fn law_not_equals_selector<T: Watchable>(resource: &T, field: Seq<char>, value: Seq<char>)
    ensures
        selector_matches(resource, seq![condition_spec(field, Operator::NotEquals, value)]) <==> (resource.field_value(
            field,
        ) is Some && resource.field_value(field) != Some(value)),
{
    let c = seq![condition_spec(field, Operator::NotEquals, value)];
    if selector_matches(resource, c) {
        assert(condition_holds(resource.field_value(c[0].field_name), c[0]));
    }
}

} // verus!
