//! Message channels between the threads.
//!
//! The channels come from `crossbeam_channel`. Another thread can send or
//! receive at any moment, so what a call finds in a channel is open. Each end of
//! a channel remembers the calls that were made through it and what they
//! returned. A contract over that memory tells which calls a function makes, and
//! that it makes no others.
use crossbeam_channel::{Receiver, Sender, TrySendError};
use vstd::prelude::*;

use crate::audio::AudioEvent;

verus! {

/// `crossbeam_channel::Sender`, the sending side of a channel.
#[verifier::external_type_specification]
#[verifier::external_body]
#[verifier::reject_recursive_types(T)]
pub struct ExSender<T>(crossbeam_channel::Sender<T>);

/// `crossbeam_channel::Receiver`, the receiving side of a channel.
#[verifier::external_type_specification]
#[verifier::external_body]
#[verifier::reject_recursive_types(T)]
pub struct ExReceiver<T>(crossbeam_channel::Receiver<T>);

/// What happened to a message that was offered without waiting.
#[derive(Clone, Copy, Debug, PartialEq, Eq, Structural)]
pub enum SendOutcome {
    /// The channel took the message.
    Sent,
    /// The channel had no room.
    Full,
    /// Nobody receives from the channel any more.
    Disconnected,
}

/// One call that was made through a sending end.
pub enum Step<T> {
    /// The channel was asked for its number of queued messages, and this was the
    /// answer.
    Counted(usize),
    /// A message was handed to the channel, with this outcome.
    Offered(T, SendOutcome),
}

/// The number of messages that an event channel was made for; none when the
/// channel has no limit.
pub uninterp spec fn event_capacity(events: Sender<AudioEvent>) -> Option<nat>;

/// `Sender::capacity` returns the limit that the channel was made with, and
/// nothing for a channel without a limit. The limit never changes.
#[verifier::external_body]
fn capacity(events: &Sender<AudioEvent>) -> (capacity: Option<usize>)
    ensures
        capacity is Some <==> event_capacity(*events) is Some,
        capacity is Some ==> capacity->0 == event_capacity(*events)->0,
{
    events.capacity()
}

/// The sending end of a channel, with a memory of the calls made through it.
#[verifier::reject_recursive_types(T)]
pub struct Outbox<T> {
    /// The sending side.
    sender: Sender<T>,
    /// The calls so far, in order.
    steps: Ghost<Seq<Step<T>>>,
}

impl<T> Outbox<T> {
    /// The sending side.
    pub closed spec fn sender(self) -> Sender<T> {
        self.sender
    }

    /// The calls that were made through this end, in order.
    pub closed spec fn steps(self) -> Seq<Step<T>> {
        self.steps@
    }

    /// Starts a memory for the sending side of a channel.
    pub fn new(sender: Sender<T>) -> (outbox: Self)
        ensures
            outbox.sender() == sender,
            outbox.steps() == Seq::<Step<T>>::empty(),
    {
        Outbox { sender, steps: Ghost(Seq::empty()) }
    }

    /// `Sender::try_send` hands a message to the channel when the channel has
    /// room and a receiver, and never waits. The memory gains this one call, with
    /// the message and the outcome. Which of the outcomes it reports depends on
    /// the other threads, so nothing is claimed of it.
    #[verifier::external_body]
    fn try_send(&mut self, message: T) -> (outcome: SendOutcome)
        ensures
            final(self).steps() == old(self).steps().push(Step::Offered(message, outcome)),
            final(self).sender() == old(self).sender(),
    {
        match self.sender.try_send(message) {
            Ok(()) => SendOutcome::Sent,
            Err(TrySendError::Full(_)) => SendOutcome::Full,
            Err(TrySendError::Disconnected(_)) => SendOutcome::Disconnected,
        }
    }

    /// Hands a message to the channel without waiting.
    pub fn offer(&mut self, message: T) -> (outcome: SendOutcome)
        ensures
            final(self).steps() == old(self).steps().push(Step::Offered(message, outcome)),
            final(self).sender() == old(self).sender(),
    {
        self.try_send(message)
    }
}

impl Outbox<AudioEvent> {
    /// The limit of the channel; none when it has no limit.
    pub open spec fn limit(self) -> Option<nat> {
        event_capacity(self.sender())
    }

    /// Returns the limit of the channel; none when it has no limit.
    pub fn capacity(&self) -> (limit: Option<usize>)
        ensures
            limit is Some <==> self.limit() is Some,
            limit is Some ==> limit->0 == self.limit()->0,
    {
        capacity(&self.sender)
    }

    /// `Sender::len` returns the number of messages in the channel at some moment
    /// of the call. It never exceeds the limit of the channel. The memory gains
    /// this one call, with the answer. The number itself depends on the other
    /// threads, so nothing more is claimed of it.
    #[verifier::external_body]
    pub(crate) fn count(&mut self) -> (count: usize)
        ensures
            final(self).steps() == old(self).steps().push(Step::Counted(count)),
            final(self).sender() == old(self).sender(),
            final(self).limit() is Some ==> count <= final(self).limit()->0,
    {
        self.sender.len()
    }
}

/// The receiving end of a channel, with a memory of the messages taken from it.
#[verifier::reject_recursive_types(T)]
pub struct Inbox<T> {
    /// The receiving side.
    receiver: Receiver<T>,
    /// The messages so far, in order.
    taken: Ghost<Seq<T>>,
}

impl<T> Inbox<T> {
    /// The messages that were taken out of the channel through this end, in order.
    pub closed spec fn taken(self) -> Seq<T> {
        self.taken@
    }

    /// Starts a memory for the receiving side of a channel.
    pub fn new(receiver: Receiver<T>) -> (inbox: Self)
        ensures
            inbox.taken() == Seq::<T>::empty(),
    {
        Inbox { receiver, taken: Ghost(Seq::empty()) }
    }

    /// `Receiver::try_iter` takes messages out of the channel in the order in
    /// which they were sent, until the channel is empty. The memory gains these
    /// messages and no others. Which messages it finds depends on the other
    /// threads, so nothing is claimed of them.
    #[verifier::external_body]
    pub(crate) fn take_pending(&mut self) -> (messages: Vec<T>)
        ensures
            final(self).taken() == old(self).taken() + messages@,
    {
        self.receiver.try_iter().collect()
    }
}

/// The messages that were taken out of a channel between two moments.
pub open spec fn newly_taken<T>(before: Inbox<T>, after: Inbox<T>) -> Seq<T> {
    after.taken().skip(before.taken().len() as int)
}

} // verus!
