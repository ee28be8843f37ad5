//! An ordered, unbounded channel that moves owned values from producing ends
//! to one receiving end.
use vstd::prelude::*;

verus! {

/// Why a channel operation was refused.
#[derive(Clone, Copy, Debug, PartialEq, Eq, Structural)]
pub enum ChannelError {
    /// The other side of the channel is gone.
    Disconnected,
    /// No producing end is left to release.
    NoSender,
}

/// What one receive attempt yields.
#[derive(Debug, PartialEq, Eq)]
pub enum Received<T> {
    /// The oldest value in flight.
    Value(T),
    /// Nothing is in flight yet, but a producing end is still open: the
    /// receiver would have to wait.
    Empty,
    /// Every producing end is gone and every value has been delivered.
    EndOfStream,
}

/// The abstract state of a channel.
pub struct ChannelState<T> {
    pub buffer: Seq<T>,
    pub senders: nat,
    pub receiver: bool,
}

impl<T> ChannelState<T> {
    /// The state after a successful send of `v`.
    pub open spec fn after_send(self, v: T) -> Self {
        ChannelState { buffer: self.buffer.push(v), ..self }
    }

    /// The state after one producing end is released.
    pub open spec fn after_sender_dropped(self) -> Self {
        ChannelState { senders: (self.senders - 1) as nat, ..self }
    }

    /// What a receive attempt yields in this state.
    pub open spec fn next_received(self) -> Received<T> {
        if self.buffer.len() > 0 {
            Received::Value(self.buffer[0])
        } else if self.senders == 0 {
            Received::EndOfStream
        } else {
            Received::Empty
        }
    }

    /// The state after a receive attempt.
    pub open spec fn after_receive(self) -> Self {
        if self.buffer.len() > 0 {
            ChannelState { buffer: self.buffer.drop_first(), ..self }
        } else {
            self
        }
    }
}

/// The state after `vals` are sent in order from one open end.
pub open spec fn sent_all<T>(s: ChannelState<T>, vals: Seq<T>) -> ChannelState<T>
    decreases vals.len(),
{
    if vals.len() == 0 {
        s
    } else {
        sent_all(s, vals.drop_last()).after_send(vals.last())
    }
}

/// What `k` receive attempts in a row yield, from state `s`.
pub open spec fn received_all<T>(s: ChannelState<T>, k: nat) -> Seq<Received<T>>
    decreases k,
{
    if k == 0 {
        Seq::empty()
    } else {
        seq![s.next_received()] + received_all(s.after_receive(), (k - 1) as nat)
    }
}

/// `vals` as delivered values.
pub open spec fn as_values<T>(vals: Seq<T>) -> Seq<Received<T>> {
    vals.map_values(|v: T| Received::Value(v))
}

proof fn lemma_sent_all<T>(s: ChannelState<T>, vals: Seq<T>)
    ensures
        sent_all(s, vals) == (ChannelState { buffer: s.buffer + vals, ..s }),
    decreases vals.len(),
{
    if vals.len() > 0 {
        lemma_sent_all(s, vals.drop_last());
        assert(s.buffer + vals.drop_last() + seq![vals.last()] =~= s.buffer + vals);
        assert((s.buffer + vals.drop_last()).push(vals.last()) =~= s.buffer + vals);
    } else {
        assert(s.buffer + vals =~= s.buffer);
    }
}

proof fn lemma_drain_closed<T>(s: ChannelState<T>)
    requires
        s.senders == 0,
    ensures
        received_all(s, s.buffer.len() + 1) == as_values(s.buffer).push(Received::EndOfStream),
    decreases s.buffer.len(),
{
    if s.buffer.len() == 0 {
        assert(received_all(s.after_receive(), 0) =~= Seq::<Received<T>>::empty());
        assert(received_all(s, 1) =~= seq![Received::<T>::EndOfStream]);
        assert(as_values(s.buffer).push(Received::EndOfStream) =~= seq![Received::<T>::EndOfStream]);
    } else {
        let t = s.after_receive();
        lemma_drain_closed(t);
        assert(t.buffer.len() + 1 == s.buffer.len());
        assert(as_values(s.buffer).push(Received::EndOfStream) =~= seq![Received::Value(s.buffer[0])]
            + as_values(t.buffer).push(Received::EndOfStream));
    }
}

/// A single producer that sends `vals` in order into an empty channel and
/// then releases its end is observed by the receiver as exactly `vals`, in
/// order, without loss or repetition, followed by end of stream; and once
/// drained the channel stays at end of stream.
pub proof fn lemma_fifo_then_end_of_stream<T>(s: ChannelState<T>, vals: Seq<T>)
    requires
        s.buffer.len() == 0,
        s.senders == 1,
        s.receiver,
    ensures
        ({
            let t = sent_all(s, vals).after_sender_dropped();
            &&& received_all(t, vals.len() + 1) == as_values(vals).push(Received::EndOfStream)
            &&& forall|k: nat| k > vals.len() ==> received_all(t, k)[k - 1] == Received::<T>::EndOfStream
        }),
{
    lemma_sent_all(s, vals);
    let t = sent_all(s, vals).after_sender_dropped();
    assert(t.buffer =~= vals);
    lemma_drain_closed(t);
    assert forall|k: nat| k > vals.len() implies received_all(t, k)[k - 1] == Received::<T>::EndOfStream by {
        lemma_received_tail(t, k);
    }
}

proof fn lemma_received_tail<T>(s: ChannelState<T>, k: nat)
    requires
        s.senders == 0,
        k > s.buffer.len(),
    ensures
        received_all(s, k).len() == k,
        received_all(s, k)[k - 1] == Received::<T>::EndOfStream,
    decreases k,
{
    lemma_received_len(s.after_receive(), (k - 1) as nat);
    if k > 1 {
        lemma_received_tail(s.after_receive(), (k - 1) as nat);
    }
}

proof fn lemma_received_len<T>(s: ChannelState<T>, k: nat)
    ensures
        received_all(s, k).len() == k,
    decreases k,
{
    if k > 0 {
        lemma_received_len(s.after_receive(), (k - 1) as nat);
    }
}

/// The channel: values in flight, how many producing ends are open, and
/// whether the receiving end is.
pub struct Channel<T> {
    buffer: Vec<T>,
    senders: u64,
    receiver: bool,
}

impl<T> View for Channel<T> {
    type V = ChannelState<T>;

    closed spec fn view(&self) -> ChannelState<T> {
        ChannelState { buffer: self.buffer@, senders: self.senders as nat, receiver: self.receiver }
    }
}

impl<T> Channel<T> {
    /// A channel with one producing end and its receiving end, both open.
    pub fn new() -> (r: Self)
        ensures
            r@ == (ChannelState::<T> { buffer: Seq::empty(), senders: 1, receiver: true }),
    {
        Channel { buffer: Vec::new(), senders: 1, receiver: true }
    }

    /// Opens one more producing end.
    pub fn add_sender(&mut self)
        requires
            old(self)@.senders < u64::MAX,
        ensures
            final(self)@ == (ChannelState { senders: old(self)@.senders + 1, ..old(self)@ }),
    {
        self.senders = self.senders + 1;
    }

    /// Releases one producing end; the last one to go closes the channel.
    pub fn drop_sender(&mut self) -> (r: Result<(), ChannelError>)
        ensures
            old(self)@.senders > 0 ==> r is Ok && final(self)@ == old(self)@.after_sender_dropped(),
            old(self)@.senders == 0 ==> r == Err::<(), ChannelError>(ChannelError::NoSender)
                && final(self)@ == old(self)@,
    {
        if self.senders > 0 {
            self.senders = self.senders - 1;
            Ok(())
        } else {
            Err(ChannelError::NoSender)
        }
    }

    /// Releases the receiving end.
    pub fn drop_receiver(&mut self)
        ensures
            final(self)@ == (ChannelState { receiver: false, ..old(self)@ }),
    {
        self.receiver = false;
    }

    pub fn senders(&self) -> (r: u64)
        ensures
            r as nat == self@.senders,
    {
        self.senders
    }

    /// The number of values in flight.
    pub fn pending(&self) -> (r: usize)
        ensures
            r == self@.buffer.len(),
    {
        self.buffer.len()
    }

    /// Enqueues `v` from an open producing end. Never waits; fails only when
    /// the receiving end is gone.
    pub fn send(&mut self, v: T) -> (r: Result<(), ChannelError>)
        requires
            old(self)@.senders > 0,
        ensures
            old(self)@.receiver ==> r is Ok && final(self)@ == old(self)@.after_send(v),
            !old(self)@.receiver ==> r == Err::<(), ChannelError>(ChannelError::Disconnected)
                && final(self)@ == old(self)@,
    {
        if self.receiver {
            self.buffer.push(v);
            Ok(())
        } else {
            Err(ChannelError::Disconnected)
        }
    }

    /// One receive attempt: the oldest value in flight, or, with nothing in
    /// flight, end of stream once every producing end is gone.
    pub fn receive(&mut self) -> (r: Received<T>)
        ensures
            r == old(self)@.next_received(),
            final(self)@ == old(self)@.after_receive(),
    {
        if self.buffer.len() > 0 {
            let v = self.buffer.remove(0);
            proof {
                assert(self.buffer@ =~= old(self)@.buffer.drop_first());
            }
            Received::Value(v)
        } else if self.senders == 0 {
            Received::EndOfStream
        } else {
            Received::Empty
        }
    }

    /// Takes every value in flight, oldest first.
    pub fn drain(&mut self) -> (r: Vec<T>)
        ensures
            r@ == old(self)@.buffer,
            final(self)@ == (ChannelState { buffer: Seq::<T>::empty(), ..old(self)@ }),
    {
        let mut taken: Vec<T> = Vec::new();
        std::mem::swap(&mut taken, &mut self.buffer);
        taken
    }
}

} // verus!
