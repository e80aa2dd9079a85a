//! A map from keys to observed values: each key has a `tokio` watch channel
//! whose subscribers see every update of its value.
use vstd::prelude::*;
use vstd::hash_map::HashMapWithView;
use tokio::sync::watch;

verus! {

broadcast use vstd::std_specs::hash::group_hash_axioms;

#[verifier::external_type_specification]
#[verifier::external_body]
#[verifier::reject_recursive_types(T)]
pub struct ExWatchSender<T>(watch::Sender<T>);

#[verifier::external_type_specification]
#[verifier::external_body]
#[verifier::reject_recursive_types(T)]
pub struct ExWatchReceiver<T>(watch::Receiver<T>);

/// Calls `tokio::sync::watch::channel` and keeps its sender, which holds
/// `value`; the receiver it also makes is dropped. Nothing is stated of the
/// sender: its value is not visible to the library.
#[verifier::external_body]
fn watch_channel<T>(value: T) -> watch::Sender<T> {
    watch::channel(value).0
}

/// Calls `watch::Sender::send_replace`, which stores `value` and notifies
/// the subscribers. Nothing is stated of the channel's value.
#[verifier::external_body]
fn watch_send_replace<T>(sender: &watch::Sender<T>, value: T) {
    sender.send_replace(value);
}

/// Calls `watch::Sender::send_if_modified`, which calls `modify` once on the
/// channel's value, notifies the subscribers when it returns `true`, and
/// returns what it returned. It panics where `modify` does, so `modify` must
/// accept any value. Nothing is stated of the value that `modify` is handed.
#[verifier::external_body]
fn watch_send_if_modified<T, F: FnOnce(&mut T) -> bool>(sender: &watch::Sender<T>, modify: F) -> (modified: bool)
    requires
        forall|r: &mut T| #[trigger] modify.requires((r,)),
    ensures
        exists|r: &mut T| #[trigger] modify.ensures((r,), modified),
{
    sender.send_if_modified(modify)
}

/// Calls `watch::Sender::subscribe`, which gives a new subscriber.
#[verifier::external_body]
fn watch_subscribe<T>(sender: &watch::Sender<T>) -> watch::Receiver<T> {
    sender.subscribe()
}

/// Calls `watch::Sender::receiver_count`. How many subscribers there are
/// depends on handles held elsewhere, so nothing is stated of the result.
#[verifier::external_body]
fn watch_receiver_count<T>(sender: &watch::Sender<T>) -> usize {
    sender.receiver_count()
}

/// Observed values by key.
#[verifier::reject_recursive_types(T)]
pub struct ObservableMap<T> {
    senders: HashMapWithView<i32, watch::Sender<T>>,
    given: Ghost<Map<i32, T>>,
    sent: Ghost<Map<i32, nat>>,
}

impl<T> ObservableMap<T> {
    /// The keys that have a value.
    pub closed spec fn keys(&self) -> Set<i32> {
        self.senders@.dom()
    }

    /// The value each key was last given through `insert` or `update`, and
    /// that its subscribers were sent. After `update_modify` of a key, its
    /// entry here is left unknown.
    pub closed spec fn values(&self) -> Map<i32, T> {
        Map::new(|k: i32| self.senders@.dom().contains(k), |k: i32| self.given@[k])
    }

    /// How many updates each key's current channel has announced to its
    /// subscribers since the channel was made by `insert`.
    pub closed spec fn notices(&self) -> Map<i32, nat> {
        Map::new(|k: i32| self.senders@.dom().contains(k), |k: i32| self.sent@[k])
    }

    pub fn new() -> (m: Self)
        ensures
            m.keys() == Set::<i32>::empty(),
            m.values() == Map::<i32, T>::empty(),
            m.notices() == Map::<i32, nat>::empty(),
    {
        let m = ObservableMap { senders: HashMapWithView::new(), given: Ghost(Map::empty()), sent: Ghost(Map::empty()) };
        assert(m.values() =~= Map::<i32, T>::empty());
        assert(m.notices() =~= Map::<i32, nat>::empty());
        m
    }

    pub fn contains_key(&self, key: i32) -> (r: bool)
        ensures
            r == self.keys().contains(key),
    {
        self.senders.contains_key(&key)
    }

    /// Gives `key` the value `value` in a fresh channel; subscribers of an
    /// earlier channel for `key` see no more updates. Says whether `key` had
    /// a value before.
    pub fn insert(&mut self, key: i32, value: T) -> (overwritten: bool)
        ensures
            final(self).keys() == old(self).keys().insert(key),
            final(self).values() == old(self).values().insert(key, value),
            final(self).notices() == old(self).notices().insert(key, 0),
            overwritten == old(self).keys().contains(key),
    {
        let ghost v = value;
        let overwritten = self.senders.contains_key(&key);
        self.senders.insert(key, watch_channel(value));
        self.given = Ghost(self.given@.insert(key, v));
        self.sent = Ghost(self.sent@.insert(key, 0));
        assert(self.values() =~= old(self).values().insert(key, v));
        assert(self.notices() =~= old(self).notices().insert(key, 0));
        overwritten
    }

    /// Replaces the value of `key`, if it has one, and notifies its
    /// subscribers; the keys stay as they are.
    pub fn update(&mut self, key: i32, value: T)
        ensures
            final(self).keys() == old(self).keys(),
            final(self).values() == if old(self).keys().contains(key) {
                old(self).values().insert(key, value)
            } else {
                old(self).values()
            },
            final(self).notices() == if old(self).keys().contains(key) {
                old(self).notices().insert(key, old(self).notices()[key] + 1)
            } else {
                old(self).notices()
            },
    {
        let ghost v = value;
        match self.senders.get(&key) {
            Some(sender) => {
                watch_send_replace(sender, value);
                self.given = Ghost(self.given@.insert(key, v));
                self.sent = Ghost(self.sent@.insert(key, self.sent@[key] + 1));
                assert(self.values() =~= old(self).values().insert(key, v));
                assert(self.notices() =~= old(self).notices().insert(key, old(self).notices()[key] + 1));
            },
            None => {},
        }
    }

    /// Applies `func` once to the value of `key`, if it has one, and notifies
    /// its subscribers, which `notices()` counts; `func` must accept any
    /// value. The keys and the values of the other keys stay as they are.
    /// What `func` leaves behind is the new value of `key` in the channel;
    /// `values()` does not record it.
    pub fn update_modify<F: FnOnce(&mut T)>(&mut self, key: i32, func: F)
        requires
            forall|r: &mut T| #[trigger] func.requires((r,)),
        ensures
            final(self).keys() == old(self).keys(),
            !old(self).keys().contains(key) ==> final(self).values() == old(self).values(),
            final(self).values().remove(key) == old(self).values().remove(key),
            old(self).keys().contains(key) ==> exists|m: &mut T| #[trigger] func.ensures((m,), ()),
            final(self).notices() == if old(self).keys().contains(key) {
                old(self).notices().insert(key, old(self).notices()[key] + 1)
            } else {
                old(self).notices()
            },
    {
        match self.senders.get(&key) {
            Some(sender) => {
                let apply = move |v: &mut T| -> (changed: bool)
                    requires
                        func.requires((v,)),
                    ensures
                        changed,
                        exists|m: &mut T| #[trigger] func.ensures((m,), ()),
                {
                    func(v);
                    true
                };
                let announced = watch_send_if_modified(sender, apply);
                if announced {
                    self.sent = Ghost(self.sent@.insert(key, self.sent@[key] + 1));
                }
                self.given = Ghost(self.given@.insert(key, vstd::pervasive::arbitrary()));
                assert(self.values().remove(key) =~= old(self).values().remove(key));
                assert(self.notices() =~= old(self).notices().insert(key, old(self).notices()[key] + 1));
            },
            None => {},
        }
    }

    /// A new subscriber to the value of `key`, if it has one.
    pub fn subscribe(&self, key: i32) -> (r: Option<watch::Receiver<T>>)
        ensures
            r is Some <==> self.keys().contains(key),
    {
        match self.senders.get(&key) {
            Some(sender) => Some(watch_subscribe(sender)),
            None => None,
        }
    }

    /// Drops the value of `key` when `receivers`, the count of its
    /// subscribers, shows that the one going away is the last.
    pub fn remove_if_last(&mut self, key: i32, receivers: usize)
        ensures
            final(self).keys() == if old(self).keys().contains(key) && receivers == 1 {
                old(self).keys().remove(key)
            } else {
                old(self).keys()
            },
            final(self).values() == if receivers == 1 {
                old(self).values().remove(key)
            } else {
                old(self).values()
            },
            final(self).notices() == if receivers == 1 {
                old(self).notices().remove(key)
            } else {
                old(self).notices()
            },
    {
        if receivers == 1 {
            self.senders.remove(&key);
            assert(self.values() =~= old(self).values().remove(key));
            assert(self.notices() =~= old(self).notices().remove(key));
        }
    }

    /// Called as a subscriber of `key` goes away: drops the value of `key`
    /// when that subscriber was the last one.
    pub fn unsubscribe(&mut self, key: i32)
        ensures
            final(self).keys() == old(self).keys() || final(self).keys() == old(self).keys().remove(key),
            !old(self).keys().contains(key) ==> final(self).keys() == old(self).keys(),
            final(self).values() == old(self).values() || final(self).values() == old(self).values().remove(key),
            final(self).notices() == old(self).notices() || final(self).notices() == old(self).notices().remove(key),
    {
        let count = match self.senders.get(&key) {
            Some(sender) => watch_receiver_count(sender),
            None => 0,
        };
        self.remove_if_last(key, count);
    }
}

} // verus!
