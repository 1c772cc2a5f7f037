//! The registry of running scan tasks: for each task the progress channel
//! that subscribers listen on, with the recent history of its updates, and
//! the signal that cancels it; and the signal that stops every scan.

use vstd::prelude::*;
use tokio::sync::{broadcast, watch};
use crate::progress::{
    HISTORY_LIMIT, ScanProgressUpdate, ScanProgressUpdateView, bounded_push, last_n,
    lemma_bounded_push_keeps_window, updates_view,
};
use crate::text::{str_equal, string_of};

verus! {

broadcast use vstd::string::group_string_axioms;

/// `tokio::sync::broadcast::Sender`, the sending half of a progress channel.
#[verifier::external_type_specification]
#[verifier::external_body]
#[verifier::reject_recursive_types(T)]
pub struct ExBroadcastSender<T>(broadcast::Sender<T>);

/// `tokio::sync::broadcast::Receiver`, handed to progress subscribers.
#[verifier::external_type_specification]
#[verifier::external_body]
#[verifier::reject_recursive_types(T)]
pub struct ExBroadcastReceiver<T>(broadcast::Receiver<T>);

/// `tokio::sync::watch::Sender`, the sending half of a cancel or shutdown signal.
#[verifier::external_type_specification]
#[verifier::external_body]
#[verifier::reject_recursive_types(T)]
pub struct ExWatchSender<T>(watch::Sender<T>);

/// `tokio::sync::watch::Receiver`, the listening half of a signal.
#[verifier::external_type_specification]
#[verifier::external_body]
#[verifier::reject_recursive_types(T)]
pub struct ExWatchReceiver<T>(watch::Receiver<T>);

/// Capacity of each task's progress channel.
pub const CHANNEL_CAPACITY: usize = 100;

/// The updates that a progress channel has taken, in the order they were
/// sent through the given sender.
pub uninterp spec fn broadcast_log(s: broadcast::Sender<ScanProgressUpdate>) -> Seq<
    ScanProgressUpdateView,
>;

/// The value that a watch channel holds, as stored through the given sender.
pub uninterp spec fn watch_value(s: watch::Sender<bool>) -> bool;

/// The progress channel that a sender belongs to. It is an identity: all
/// that is claimed of it is which senders and receivers share it.
pub uninterp spec fn broadcast_channel_id(s: broadcast::Sender<ScanProgressUpdate>) -> int;

/// The progress channel that a receiver listens on, as
/// [`broadcast_channel_id`] gives it for the channel's sender.
pub uninterp spec fn broadcast_receiver_id(r: broadcast::Receiver<ScanProgressUpdate>) -> int;

/// The watch channel that a sender belongs to. It is an identity: all that
/// is claimed of it is which senders and receivers share it.
pub uninterp spec fn watch_channel_id(s: watch::Sender<bool>) -> int;

/// The watch channel that a receiver reads, as [`watch_channel_id`] gives
/// it for the channel's sender.
pub uninterp spec fn watch_receiver_id(r: watch::Receiver<bool>) -> int;

/// `tokio::sync::broadcast::channel`: a new channel with room for
/// `capacity` unread updates, which has taken no update yet, and a receiver
/// of it. It panics on a capacity of zero or above `usize::MAX / 2`, which
/// `requires` leaves out.
#[verifier::external_body]
fn broadcast_channel(capacity: usize) -> (r: (
    broadcast::Sender<ScanProgressUpdate>,
    broadcast::Receiver<ScanProgressUpdate>,
))
    requires
        0 < capacity <= usize::MAX / 2,
    ensures
        broadcast_log(r.0) == Seq::<ScanProgressUpdateView>::empty(),
        broadcast_receiver_id(r.1) == broadcast_channel_id(r.0),
{
    broadcast::channel(capacity)
}

/// `tokio::sync::broadcast::Sender::subscribe`: a receiver, on the
/// sender's channel, of the updates sent after this call. Tokio panics only
/// when a channel already has `usize::MAX >> 2` receivers, a count that no
/// machine holds.
#[verifier::external_body]
fn broadcast_subscribe(sender: &broadcast::Sender<ScanProgressUpdate>) -> (r:
    broadcast::Receiver<ScanProgressUpdate>)
    ensures
        broadcast_receiver_id(r) == broadcast_channel_id(*sender),
{
    sender.subscribe()
}

/// `tokio::sync::broadcast::Sender::send`: when a receiver is alive, the
/// channel takes the update and `true` comes back; when none is, tokio
/// returns an error before writing anything, and the sender is as it was.
/// Which of the two happens depends on the receivers, so it is not stated.
#[verifier::external_body]
fn broadcast_send(
    sender: &mut broadcast::Sender<ScanProgressUpdate>,
    update: ScanProgressUpdate,
) -> (sent: bool)
    ensures
        sent ==> broadcast_log(*final(sender)) == broadcast_log(*old(sender)).push(update@),
        sent ==> broadcast_channel_id(*final(sender)) == broadcast_channel_id(*old(sender)),
        !sent ==> *final(sender) == *old(sender),
{
    sender.send(update).is_ok()
}

/// `tokio::sync::watch::channel`: a new watch channel holding `init`, and
/// a receiver of it.
#[verifier::external_body]
fn watch_channel(init: bool) -> (r: (watch::Sender<bool>, watch::Receiver<bool>))
    ensures
        watch_value(r.0) == init,
        watch_receiver_id(r.1) == watch_channel_id(r.0),
{
    watch::channel(init)
}

/// `tokio::sync::watch::Sender::send`: when a receiver is alive, stores
/// `value` for the receivers and gives `true`; when none is, tokio returns
/// an error before storing anything, and the sender is as it was. Which of
/// the two happens depends on the receivers, so it is not stated.
#[verifier::external_body]
fn watch_send(sender: &mut watch::Sender<bool>, value: bool) -> (ok: bool)
    ensures
        ok ==> watch_value(*final(sender)) == value,
        ok ==> watch_channel_id(*final(sender)) == watch_channel_id(*old(sender)),
        !ok ==> *final(sender) == *old(sender),
{
    sender.send(value).is_ok()
}

/// `tokio::sync::watch::Sender::subscribe`: a new receiver of the sender's
/// channel.
#[verifier::external_body]
fn watch_subscribe(sender: &watch::Sender<bool>) -> (r: watch::Receiver<bool>)
    ensures
        watch_receiver_id(r) == watch_channel_id(*sender),
{
    sender.subscribe()
}

/// The progress channel of one task.
struct ProgressChannel {
    task_id: String,
    sender: broadcast::Sender<ScanProgressUpdate>,
    history: Vec<ScanProgressUpdate>,
    updates: Ghost<Seq<ScanProgressUpdateView>>,
}

/// The cancel signal of one task.
struct CancelSignal {
    task_id: String,
    sender: watch::Sender<bool>,
}

/// All progress channels and cancel signals of the running tasks, and the
/// shutdown signal.
pub struct ScanRegistry {
    channels: Vec<ProgressChannel>,
    cancels: Vec<CancelSignal>,
    shutdown: watch::Sender<bool>,
}

/// The abstract state of one progress channel.
#[verifier::ext_equal]
pub struct ChannelView {
    /// The recorded history that late subscribers are given.
    pub history: Seq<ScanProgressUpdateView>,
    /// Every update published to the task since the channel was opened.
    pub updates: Seq<ScanProgressUpdateView>,
    /// The updates that the channel took for its subscribers.
    pub taken: Seq<ScanProgressUpdateView>,
    /// The channel that the task's subscribers listen on.
    pub channel: int,
}

/// The abstract state of one watch signal: the value it holds and the
/// channel that its receivers read.
pub struct SignalView {
    pub held: bool,
    pub channel: int,
}

/// The abstract state of a [`ScanRegistry`]: the progress channel of each
/// task that has one, the cancel signal of each task that has one, and the
/// shutdown signal.
pub struct RegistryView {
    pub channels: Map<Seq<char>, ChannelView>,
    pub cancel_signals: Map<Seq<char>, SignalView>,
    pub shutdown: SignalView,
}

/// A channel just opened on channel `id`: nothing recorded, nothing taken.
pub open spec fn fresh_channel(id: int) -> ChannelView {
    ChannelView {
        history: Seq::<ScanProgressUpdateView>::empty(),
        updates: Seq::<ScanProgressUpdateView>::empty(),
        taken: Seq::<ScanProgressUpdateView>::empty(),
        channel: id,
    }
}

/// A channel after `u` was published on it: `u` is recorded within the
/// history limit, and taken by the channel when `sent`.
pub open spec fn after_publish(c: ChannelView, u: ScanProgressUpdateView, sent: bool) -> ChannelView {
    ChannelView {
        history: bounded_push(c.history, u),
        updates: c.updates.push(u),
        taken: if sent { c.taken.push(u) } else { c.taken },
        channel: c.channel,
    }
}

/// The map that a list of keyed entries stands for.
pub open spec fn entries_map<V>(s: Seq<(Seq<char>, V)>) -> Map<Seq<char>, V>
    decreases s.len(),
{
    if s.len() == 0 {
        Map::empty()
    } else {
        entries_map(s.drop_last()).insert(s.last().0, s.last().1)
    }
}

/// No key occurs twice.
pub open spec fn keys_unique<V>(s: Seq<(Seq<char>, V)>) -> bool {
    forall|i: int, j: int| 0 <= i < j < s.len() ==> s[i].0 != s[j].0
}

proof fn lemma_entries_dom<V>(s: Seq<(Seq<char>, V)>, k: Seq<char>)
    ensures
        entries_map(s).dom().contains(k) <==> exists|i: int| 0 <= i < s.len() && s[i].0 == k,
    decreases s.len(),
{
    if s.len() > 0 {
        lemma_entries_dom(s.drop_last(), k);
        if entries_map(s.drop_last()).dom().contains(k) {
            let i = choose|i: int| 0 <= i < s.len() - 1 && s.drop_last()[i].0 == k;
            assert(s[i].0 == k);
        }
        if exists|i: int| 0 <= i < s.len() && s[i].0 == k {
            let i = choose|i: int| 0 <= i < s.len() && s[i].0 == k;
            if i < s.len() - 1 {
                assert(s.drop_last()[i].0 == k);
            }
        }
    }
}

proof fn lemma_entries_value<V>(s: Seq<(Seq<char>, V)>, i: int)
    requires
        keys_unique(s),
        0 <= i < s.len(),
    ensures
        entries_map(s).dom().contains(s[i].0),
        entries_map(s)[s[i].0] == s[i].1,
    decreases s.len(),
{
    if i < s.len() - 1 {
        lemma_entries_value(s.drop_last(), i);
        assert(s.drop_last()[i] == s[i]);
    }
}

proof fn lemma_entries_update<V>(s: Seq<(Seq<char>, V)>, i: int, v: V)
    requires
        keys_unique(s),
        0 <= i < s.len(),
    ensures
        entries_map(s.update(i, (s[i].0, v))) == entries_map(s).insert(s[i].0, v),
        keys_unique(s.update(i, (s[i].0, v))),
    decreases s.len(),
{
    let t = s.update(i, (s[i].0, v));
    if i == s.len() - 1 {
        assert(t.drop_last() == s.drop_last());
        assert(entries_map(t) =~= entries_map(s).insert(s[i].0, v));
    } else {
        lemma_entries_update(s.drop_last(), i, v);
        assert(t.drop_last() == s.drop_last().update(i, (s[i].0, v)));
        assert(entries_map(t) =~= entries_map(s).insert(s[i].0, v));
    }
}

proof fn lemma_entries_remove<V>(s: Seq<(Seq<char>, V)>, i: int)
    requires
        keys_unique(s),
        0 <= i < s.len(),
    ensures
        entries_map(s.remove(i)) == entries_map(s).remove(s[i].0),
        keys_unique(s.remove(i)),
    decreases s.len(),
{
    let t = s.remove(i);
    if i == s.len() - 1 {
        assert(t == s.drop_last());
        lemma_entries_dom(s.drop_last(), s[i].0);
        assert(!entries_map(s.drop_last()).dom().contains(s[i].0));
        assert(entries_map(t) =~= entries_map(s).remove(s[i].0));
    } else {
        lemma_entries_remove(s.drop_last(), i);
        assert(t.drop_last() == s.drop_last().remove(i));
        assert(t.last() == s.last());
        assert(entries_map(t) =~= entries_map(s).remove(s[i].0));
    }
}

proof fn lemma_entries_push<V>(s: Seq<(Seq<char>, V)>, k: Seq<char>, v: V)
    requires
        keys_unique(s),
        !entries_map(s).dom().contains(k),
    ensures
        entries_map(s.push((k, v))) == entries_map(s).insert(k, v),
        keys_unique(s.push((k, v))),
{
    assert(s.push((k, v)).drop_last() == s);
    assert forall|i: int| 0 <= i < s.len() implies s[i].0 != k by {
        lemma_entries_dom(s, k);
    }
}

/// The abstract state of a channel entry.
spec fn channel_view(c: ProgressChannel) -> ChannelView {
    ChannelView {
        history: updates_view(c.history@),
        updates: c.updates@,
        taken: broadcast_log(c.sender),
        channel: broadcast_channel_id(c.sender),
    }
}

/// A channel's history is the latest [`HISTORY_LIMIT`] of its updates.
spec fn channel_wf(c: ProgressChannel) -> bool {
    updates_view(c.history@) == last_n(c.updates@, HISTORY_LIMIT as nat)
}

/// The keyed entries of the progress channels.
spec fn channel_entries(cs: Seq<ProgressChannel>) -> Seq<(Seq<char>, ChannelView)> {
    cs.map_values(|c: ProgressChannel| (c.task_id@, channel_view(c)))
}

/// The keyed entries of the cancel signals.
spec fn cancel_entries(cs: Seq<CancelSignal>) -> Seq<(Seq<char>, SignalView)> {
    cs.map_values(|c: CancelSignal| (c.task_id@, signal_view(c.sender)))
}

/// The abstract state of a watch signal's sender.
spec fn signal_view(s: watch::Sender<bool>) -> SignalView {
    SignalView { held: watch_value(s), channel: watch_channel_id(s) }
}

impl View for ScanRegistry {
    type V = RegistryView;

    closed spec fn view(&self) -> RegistryView {
        RegistryView {
            channels: entries_map(channel_entries(self.channels@)),
            cancel_signals: entries_map(cancel_entries(self.cancels@)),
            shutdown: signal_view(self.shutdown),
        }
    }
}

impl ScanRegistry {
    /// Each task occurs once among the channels and once among the cancel
    /// signals, and each history is the latest [`HISTORY_LIMIT`] updates of
    /// its channel.
    pub closed spec fn wf(&self) -> bool {
        &&& keys_unique(channel_entries(self.channels@))
        &&& keys_unique(cancel_entries(self.cancels@))
        &&& forall|i: int| 0 <= i < self.channels@.len() ==> channel_wf(#[trigger] self.channels@[i])
    }

    /// Whatever calls led to it, the history of every channel in a
    /// well-formed registry holds exactly the latest [`HISTORY_LIMIT`] of the
    /// updates published to the task since its channel was opened, in the
    /// order they were published, and so never more than [`HISTORY_LIMIT`].
    pub proof fn lemma_history_is_latest(&self, k: Seq<char>)
        requires
            self.wf(),
            self@.channels.dom().contains(k),
        ensures
            self@.channels[k].history == last_n(self@.channels[k].updates, HISTORY_LIMIT as nat),
            self@.channels[k].history.len() <= HISTORY_LIMIT,
    {
        let es = channel_entries(self.channels@);
        lemma_entries_dom(es, k);
        let i = choose|i: int| 0 <= i < es.len() && es[i].0 == k;
        lemma_entries_value(es, i);
        assert(channel_wf(self.channels@[i]));
    }

    /// An empty registry whose shutdown signal holds `false`.
    pub fn new() -> (r: Self)
        ensures
            r.wf(),
            r@.channels == Map::<Seq<char>, ChannelView>::empty(),
            r@.cancel_signals == Map::<Seq<char>, SignalView>::empty(),
            !r@.shutdown.held,
    {
        let (shutdown, _receiver) = watch_channel(false);
        let r = ScanRegistry { channels: Vec::new(), cancels: Vec::new(), shutdown };
        assert(channel_entries(r.channels@) =~= Seq::empty());
        assert(cancel_entries(r.cancels@) =~= Seq::empty());
        r
    }

    fn find_channel(&self, task_id: &str) -> (r: Option<usize>)
        requires
            self.wf(),
        ensures
            match r {
                Some(i) => i < self.channels@.len() && self.channels@[i as int].task_id@ == task_id@,
                None => !self@.channels.dom().contains(task_id@),
            },
    {
        let mut i: usize = 0;
        while i < self.channels.len()
            invariant
                i <= self.channels@.len(),
                forall|j: int| 0 <= j < i ==> self.channels@[j].task_id@ != task_id@,
            decreases self.channels.len() - i,
        {
            if str_equal(self.channels[i].task_id.as_str(), task_id) {
                return Some(i);
            }
            i = i + 1;
        }
        proof {
            let es = channel_entries(self.channels@);
            lemma_entries_dom(es, task_id@);
            if es.len() > 0 {
                assert forall|j: int| 0 <= j < es.len() implies es[j].0 != task_id@ by {
                    assert(es[j].0 == self.channels@[j].task_id@);
                }
            }
        }
        None
    }

    fn find_cancel(&self, task_id: &str) -> (r: Option<usize>)
        requires
            self.wf(),
        ensures
            match r {
                Some(i) => i < self.cancels@.len() && self.cancels@[i as int].task_id@ == task_id@,
                None => !self@.cancel_signals.dom().contains(task_id@),
            },
    {
        let mut i: usize = 0;
        while i < self.cancels.len()
            invariant
                i <= self.cancels@.len(),
                forall|j: int| 0 <= j < i ==> self.cancels@[j].task_id@ != task_id@,
            decreases self.cancels.len() - i,
        {
            if str_equal(self.cancels[i].task_id.as_str(), task_id) {
                return Some(i);
            }
            i = i + 1;
        }
        proof {
            let es = cancel_entries(self.cancels@);
            lemma_entries_dom(es, task_id@);
            if es.len() > 0 {
                assert forall|j: int| 0 <= j < es.len() implies es[j].0 != task_id@ by {
                    assert(es[j].0 == self.cancels@[j].task_id@);
                }
            }
        }
        None
    }
}


proof fn lemma_channel_entries_update(cs: Seq<ProgressChannel>, i: int, c: ProgressChannel)
    requires
        0 <= i < cs.len(),
    ensures
        channel_entries(cs.update(i, c)) == channel_entries(cs).update(i, (c.task_id@, channel_view(c))),
{
    assert(channel_entries(cs.update(i, c)) =~= channel_entries(cs).update(
        i,
        (c.task_id@, channel_view(c)),
    ));
}

proof fn lemma_cancel_entries_update(cs: Seq<CancelSignal>, i: int, c: CancelSignal)
    requires
        0 <= i < cs.len(),
    ensures
        cancel_entries(cs.update(i, c)) == cancel_entries(cs).update(
            i,
            (c.task_id@, signal_view(c.sender)),
        ),
{
    assert(cancel_entries(cs.update(i, c)) =~= cancel_entries(cs).update(
        i,
        (c.task_id@, signal_view(c.sender)),
    ));
}

/// Opens a progress channel for a task, replacing any channel it had; the
/// new channel has recorded and taken nothing. Returns a receiver on the
/// new channel, which gets the updates the channel takes from then on.
pub fn register_progress_channel(registry: &mut ScanRegistry, task_id: &str) -> (rx:
    broadcast::Receiver<ScanProgressUpdate>)
    requires
        old(registry).wf(),
    ensures
        final(registry).wf(),
        final(registry)@.channels == old(registry)@.channels.insert(
            task_id@,
            fresh_channel(broadcast_receiver_id(rx)),
        ),
        final(registry)@.cancel_signals == old(registry)@.cancel_signals,
        final(registry)@.shutdown == old(registry)@.shutdown,
{
    let (tx, rx) = broadcast_channel(CHANNEL_CAPACITY);
    let entry = ProgressChannel {
        task_id: string_of(task_id),
        sender: tx,
        history: Vec::new(),
        updates: Ghost(Seq::empty()),
    };
    assert(updates_view(entry.history@) =~= Seq::<ScanProgressUpdateView>::empty());
    assert(channel_view(entry) =~= fresh_channel(broadcast_receiver_id(rx)));
    let ghost old_cs = registry.channels@;
    match registry.find_channel(task_id) {
        Some(i) => {
            proof {
                lemma_channel_entries_update(old_cs, i as int, entry);
                lemma_entries_update(channel_entries(old_cs), i as int, fresh_channel(broadcast_receiver_id(rx)));
                assert(channel_entries(old_cs)[i as int].0 == task_id@);
            }
            registry.channels.set(i, entry);
            proof {
                assert forall|j: int| 0 <= j < registry.channels@.len() implies
                    channel_wf(#[trigger] registry.channels@[j]) by {
                    if j != i {
                        assert(registry.channels@[j] == old_cs[j]);
                    }
                }
            }
        },
        None => {
            proof {
                lemma_entries_push(channel_entries(old_cs), task_id@, fresh_channel(broadcast_receiver_id(rx)));
                assert(channel_entries(old_cs.push(entry)) =~= channel_entries(old_cs).push(
                    (task_id@, fresh_channel(broadcast_receiver_id(rx))),
                ));
            }
            registry.channels.push(entry);
            proof {
                assert forall|j: int| 0 <= j < registry.channels@.len() implies
                    channel_wf(#[trigger] registry.channels@[j]) by {
                    if j < old_cs.len() {
                        assert(registry.channels@[j] == old_cs[j]);
                    }
                }
            }
        },
    }
    rx
}

/// Whether a task has a progress channel.
pub fn has_progress_channel(registry: &ScanRegistry, task_id: &str) -> (r: bool)
    requires
        registry.wf(),
    ensures
        r == registry@.channels.dom().contains(task_id@),
{
    match registry.find_channel(task_id) {
        Some(i) => {
            proof {
                lemma_entries_value(channel_entries(registry.channels@), i as int);
            }
            true
        },
        None => false,
    }
}

fn clone_updates(v: &Vec<ScanProgressUpdate>) -> (r: Vec<ScanProgressUpdate>)
    ensures
        updates_view(r@) == updates_view(v@),
{
    let r = v.clone();
    assert(updates_view(r@) =~= updates_view(v@));
    r
}

/// The recorded history of a task's progress and a receiver on the task's
/// channel, which gets the updates that follow, or `None` when the task has
/// no progress channel.
pub fn subscribe_progress(registry: &ScanRegistry, task_id: &str) -> (r: Option<
    (Vec<ScanProgressUpdate>, broadcast::Receiver<ScanProgressUpdate>),
>)
    requires
        registry.wf(),
    ensures
        r is Some <==> registry@.channels.dom().contains(task_id@),
        r matches Some((history, rx)) ==> updates_view(history@)
            == registry@.channels[task_id@].history && broadcast_receiver_id(rx)
            == registry@.channels[task_id@].channel,
{
    match registry.find_channel(task_id) {
        Some(i) => {
            proof {
                lemma_entries_value(channel_entries(registry.channels@), i as int);
            }
            let history = clone_updates(&registry.channels[i].history);
            let rx = broadcast_subscribe(&registry.channels[i].sender);
            Some((history, rx))
        },
        None => None,
    }
}

/// Closes the progress channel of a task, if it has one.
pub fn remove_progress_channel(registry: &mut ScanRegistry, task_id: &str)
    requires
        old(registry).wf(),
    ensures
        final(registry).wf(),
        final(registry)@.channels == old(registry)@.channels.remove(task_id@),
        final(registry)@.cancel_signals == old(registry)@.cancel_signals,
        final(registry)@.shutdown == old(registry)@.shutdown,
{
    let ghost old_cs = registry.channels@;
    match registry.find_channel(task_id) {
        Some(i) => {
            proof {
                lemma_entries_remove(channel_entries(old_cs), i as int);
                assert(channel_entries(old_cs.remove(i as int)) =~= channel_entries(old_cs).remove(
                    i as int,
                ));
            }
            let _ = registry.channels.remove(i);
            proof {
                assert forall|j: int| 0 <= j < registry.channels@.len() implies
                    channel_wf(#[trigger] registry.channels@[j]) by {
                    if j < i {
                        assert(registry.channels@[j] == old_cs[j]);
                    } else {
                        assert(registry.channels@[j] == old_cs[j + 1]);
                    }
                }
            }
        },
        None => {
            assert(old(registry)@.channels.remove(task_id@) =~= old(registry)@.channels);
        },
    }
}

/// Records an update in a task's history, dropping the oldest entry beyond
/// [`HISTORY_LIMIT`], and sends it on the task's channel. Returns whether
/// the channel took it, which it does when a subscriber is listening. A task
/// without a progress channel is left as it is, and `false` comes back.
pub fn publish_progress(registry: &mut ScanRegistry, task_id: &str, update: ScanProgressUpdate) -> (sent: bool)
    requires
        old(registry).wf(),
    ensures
        final(registry).wf(),
        final(registry)@.cancel_signals == old(registry)@.cancel_signals,
        final(registry)@.shutdown == old(registry)@.shutdown,
        old(registry)@.channels.dom().contains(task_id@) ==> final(registry)@.channels
            == old(registry)@.channels.insert(
            task_id@,
            after_publish(old(registry)@.channels[task_id@], update@, sent),
        ),
        !old(registry)@.channels.dom().contains(task_id@) ==> !sent && final(registry)@.channels
            == old(registry)@.channels,
{
    let ghost old_cs = registry.channels@;
    match registry.find_channel(task_id) {
        Some(i) => {
            proof {
                lemma_entries_value(channel_entries(old_cs), i as int);
            }
            let mut channel = registry.channels.remove(i);
            let ghost old_channel = channel;
            assert(channel_wf(old_cs[i as int]));
            let copy = update.clone();
            channel.history.push(copy);
            if channel.history.len() > HISTORY_LIMIT {
                let _ = channel.history.remove(0);
            }
            let ghost u = update@;
            channel.updates = Ghost(channel.updates@.push(u));
            let sent = broadcast_send(&mut channel.sender, update);
            proof {
                assert(updates_view(channel.history@) =~= bounded_push(
                    updates_view(old_channel.history@),
                    u,
                ));
                lemma_bounded_push_keeps_window(old_channel.updates@, u);
                assert(channel_wf(channel));
                assert(channel_view(channel) =~= after_publish(channel_view(old_channel), u, sent));
                assert(old_cs.remove(i as int).insert(i as int, channel) =~= old_cs.update(
                    i as int,
                    channel,
                ));
                lemma_channel_entries_update(old_cs, i as int, channel);
                lemma_entries_update(channel_entries(old_cs), i as int, channel_view(channel));
            }
            registry.channels.insert(i, channel);
            proof {
                assert forall|j: int| 0 <= j < registry.channels@.len() implies
                    channel_wf(#[trigger] registry.channels@[j]) by {
                    if j != i {
                        assert(registry.channels@[j] == old_cs[j]);
                    }
                }
            }
            sent
        },
        None => false,
    }
}

/// Opens the cancel signal of a task, holding `false` and replacing any
/// signal it had, and returns a receiver that reads the new signal.
pub fn register_cancel_signal(registry: &mut ScanRegistry, task_id: &str) -> (rx: watch::Receiver<
    bool,
>)
    requires
        old(registry).wf(),
    ensures
        final(registry).wf(),
        final(registry)@.cancel_signals == old(registry)@.cancel_signals.insert(
            task_id@,
            SignalView { held: false, channel: watch_receiver_id(rx) },
        ),
        final(registry)@.channels == old(registry)@.channels,
        final(registry)@.shutdown == old(registry)@.shutdown,
{
    let (tx, rx) = watch_channel(false);
    let entry = CancelSignal { task_id: string_of(task_id), sender: tx };
    let ghost old_cs = registry.cancels@;
    match registry.find_cancel(task_id) {
        Some(i) => {
            proof {
                lemma_cancel_entries_update(old_cs, i as int, entry);
                lemma_entries_update(cancel_entries(old_cs), i as int, signal_view(entry.sender));
                assert(cancel_entries(old_cs)[i as int].0 == task_id@);
            }
            registry.cancels.set(i, entry);
        },
        None => {
            proof {
                lemma_entries_push(cancel_entries(old_cs), task_id@, signal_view(entry.sender));
                assert(cancel_entries(old_cs.push(entry)) =~= cancel_entries(old_cs).push(
                    (task_id@, signal_view(entry.sender)),
                ));
            }
            registry.cancels.push(entry);
        },
    }
    rx
}

/// Closes the cancel signal of a task, if it has one.
pub fn remove_cancel_signal(registry: &mut ScanRegistry, task_id: &str)
    requires
        old(registry).wf(),
    ensures
        final(registry).wf(),
        final(registry)@.cancel_signals == old(registry)@.cancel_signals.remove(task_id@),
        final(registry)@.channels == old(registry)@.channels,
        final(registry)@.shutdown == old(registry)@.shutdown,
{
    let ghost old_cs = registry.cancels@;
    match registry.find_cancel(task_id) {
        Some(i) => {
            proof {
                lemma_entries_remove(cancel_entries(old_cs), i as int);
                assert(cancel_entries(old_cs.remove(i as int)) =~= cancel_entries(old_cs).remove(
                    i as int,
                ));
            }
            let _ = registry.cancels.remove(i);
        },
        None => {
            assert(old(registry)@.cancel_signals.remove(task_id@) =~= old(
                registry,
            )@.cancel_signals);
        },
    }
}

/// Whether a task's scan is to run: it is while the task has a progress
/// channel. A task without one has its cancel signal closed, and its scan
/// does not run.
pub fn scan_may_start(registry: &mut ScanRegistry, task_id: &str) -> (start: bool)
    requires
        old(registry).wf(),
    ensures
        final(registry).wf(),
        start == old(registry)@.channels.dom().contains(task_id@),
        start ==> final(registry)@ == old(registry)@,
        !start ==> final(registry)@ == (RegistryView {
            cancel_signals: old(registry)@.cancel_signals.remove(task_id@),
            ..old(registry)@
        }),
{
    if has_progress_channel(registry, task_id) {
        true
    } else {
        remove_cancel_signal(registry, task_id);
        false
    }
}

/// Sends `true` on a task's cancel signal. `false`, with the registry left
/// as it is, when the task has no cancel signal; otherwise whether the
/// signal took the value, which it does while the task's scan listens. When
/// it did, the task's signal holds `true` on the same channel, so the
/// receiver handed out for it reads `true`; when it did not, nothing changed.
pub fn cancel_task(registry: &mut ScanRegistry, task_id: &str) -> (delivered: bool)
    requires
        old(registry).wf(),
    ensures
        final(registry).wf(),
        delivered ==> old(registry)@.cancel_signals.dom().contains(task_id@),
        delivered ==> final(registry)@ == (RegistryView {
            cancel_signals: old(registry)@.cancel_signals.insert(
                task_id@,
                SignalView { held: true, ..old(registry)@.cancel_signals[task_id@] },
            ),
            ..old(registry)@
        }),
        !delivered ==> final(registry)@ == old(registry)@,
{
    let ghost old_cs = registry.cancels@;
    match registry.find_cancel(task_id) {
        Some(i) => {
            proof {
                lemma_entries_value(cancel_entries(old_cs), i as int);
            }
            let mut signal = registry.cancels.remove(i);
            let ghost old_signal = signal;
            let delivered = watch_send(&mut signal.sender, true);
            proof {
                assert(old_cs.remove(i as int).insert(i as int, signal) =~= old_cs.update(
                    i as int,
                    signal,
                ));
                lemma_cancel_entries_update(old_cs, i as int, signal);
                lemma_entries_update(cancel_entries(old_cs), i as int, signal_view(signal.sender));
                if !delivered {
                    assert(signal == old_signal);
                    assert(old_cs.update(i as int, signal) =~= old_cs);
                }
            }
            registry.cancels.insert(i, signal);
            delivered
        },
        None => false,
    }
}

/// Sends `true` on the shutdown signal and forgets all channels and cancel
/// signals. Returns whether the signal took the value, which it does while
/// a scan listens; the signal stays on its channel, and when it did not
/// take the value it holds what it held.
pub fn request_shutdown(registry: &mut ScanRegistry) -> (delivered: bool)
    requires
        old(registry).wf(),
    ensures
        final(registry).wf(),
        final(registry)@.channels == Map::<Seq<char>, ChannelView>::empty(),
        final(registry)@.cancel_signals == Map::<Seq<char>, SignalView>::empty(),
        final(registry)@.shutdown.channel == old(registry)@.shutdown.channel,
        delivered ==> final(registry)@.shutdown.held,
        !delivered ==> final(registry)@.shutdown == old(registry)@.shutdown,
{
    let delivered = watch_send(&mut registry.shutdown, true);
    registry.channels.clear();
    registry.cancels.clear();
    assert(channel_entries(registry.channels@) =~= Seq::empty());
    assert(cancel_entries(registry.cancels@) =~= Seq::empty());
    delivered
}

/// A receiver that reads the shutdown signal.
pub fn subscribe_shutdown(registry: &ScanRegistry) -> (rx: watch::Receiver<bool>)
    ensures
        watch_receiver_id(rx) == registry@.shutdown.channel,
{
    watch_subscribe(&registry.shutdown)
}

} // verus!
