//! The hand-off between the audio thread and an enhancement worker thread:
//! frames go out over one bounded channel and answers come back over
//! another, without ever blocking the audio thread.

use vstd::prelude::*;
use crossbeam_channel::{Receiver, Sender, TrySendError};

verus! {

/// The sending half of a crossbeam channel.
#[verifier::external_type_specification]
#[verifier::external_body]
#[verifier::reject_recursive_types(T)]
pub struct ExSender<T>(Sender<T>);

/// The receiving half of a crossbeam channel.
#[verifier::external_type_specification]
#[verifier::external_body]
#[verifier::reject_recursive_types(T)]
pub struct ExReceiver<T>(Receiver<T>);

/// Calls `crossbeam_channel::Sender::try_send`, which never blocks: it
/// either queues `msg` or hands it back inside the error when the channel is
/// full or disconnected. Claimed: a refused message comes back unchanged.
/// Whether it is accepted depends on the other thread and is left unsaid.
#[verifier::external_body]
fn channel_try_send<T>(tx: &Sender<T>, msg: T) -> (r: Result<(), T>)
    ensures
        r matches Err(back) ==> back == msg,
{
    match tx.try_send(msg) {
        Ok(()) => Ok(()),
        Err(TrySendError::Full(back)) => Err(back),
        Err(TrySendError::Disconnected(back)) => Err(back),
    }
}

/// Calls `crossbeam_channel::Receiver::try_recv`, which never blocks: it
/// returns a queued message, or an error when none is queued. Whether one is
/// queued depends on the other thread, so nothing is claimed of the result.
#[verifier::external_body]
fn channel_try_recv<T>(rx: &Receiver<T>) -> (r: Option<T>) {
    rx.try_recv().ok()
}

/// The audio thread's end of the DPDFNet worker: `tx` is present only when
/// the worker reported that its model loaded.
#[verifier::reject_recursive_types(T)]
pub struct DpdfWorker<T> {
    tx: Option<Sender<T>>,
    rx: Receiver<T>,
    offered: Ghost<Seq<T>>,
}

impl<T> DpdfWorker<T> {
    /// The worker accepts frames.
    pub closed spec fn accepts(&self) -> bool {
        self.tx is Some
    }

    /// The channel frames are offered on, when the worker accepts frames.
    pub closed spec fn sender(&self) -> Option<Sender<T>> {
        self.tx
    }

    /// The channel answers come back on.
    pub closed spec fn receiver(&self) -> Receiver<T> {
        self.rx
    }

    /// The frames the worker has taken, in the order it took them.
    pub closed spec fn offered(&self) -> Seq<T> {
        self.offered@
    }

    /// Joins the channels of a started worker thread; `ready` is what the
    /// thread reported about loading its model. A worker that is not ready
    /// never accepts a frame.
    pub fn new(tx_in: Sender<T>, ready: bool, rx_out: Receiver<T>) -> (r: Self)
        ensures
            r.accepts() == ready,
            r.sender() == (if ready { Some(tx_in) } else { None }),
            r.receiver() == rx_out,
            r.offered() == Seq::<T>::empty(),
    {
        DpdfWorker { tx: if ready { Some(tx_in) } else { None }, rx: rx_out, offered: Ghost(Seq::empty()) }
    }

    /// Offers a frame to the worker without blocking; returns whether it was
    /// taken, in which case it is the next frame the worker has taken. A
    /// worker whose model did not load takes nothing.
    pub fn submit(&mut self, frame: T) -> (r: bool)
        ensures
            !old(self).accepts() ==> !r,
            r ==> final(self).offered() == old(self).offered().push(frame),
            !r ==> final(self).offered() == old(self).offered(),
            final(self).accepts() == old(self).accepts(),
            final(self).sender() == old(self).sender(),
            final(self).receiver() == old(self).receiver(),
    {
        let ghost sent = frame;
        let taken = match &self.tx {
            None => false,
            Some(tx) => channel_try_send(tx, frame).is_ok(),
        };
        if taken {
            self.offered = Ghost(self.offered@.push(sent));
        }
        taken
    }

    /// An answer of the worker, if one is waiting.
    pub fn take(&self) -> (r: Option<T>) {
        channel_try_recv(&self.rx)
    }
}

/// The audio thread's end of the DeepFilterNet worker: both channels are
/// present only when the worker thread started with its model.
#[verifier::reject_recursive_types(T)]
pub struct DfWorker<T> {
    tx: Option<Sender<T>>,
    rx: Option<Receiver<T>>,
    offered: Ghost<Seq<T>>,
}

impl<T> DfWorker<T> {
    #[verifier::type_invariant]
    spec fn inv(self) -> bool {
        (self.tx is Some) == (self.rx is Some)
    }

    /// The worker is connected.
    pub closed spec fn connected(&self) -> bool {
        self.tx is Some && self.rx is Some
    }

    /// The channel frames are offered on, when connected.
    pub closed spec fn sender(&self) -> Option<Sender<T>> {
        self.tx
    }

    /// The channel answers come back on, when connected.
    pub closed spec fn receiver(&self) -> Option<Receiver<T>> {
        self.rx
    }

    /// The frames the worker has taken, in the order it took them.
    pub closed spec fn offered(&self) -> Seq<T> {
        self.offered@
    }

    /// Joins the channels of a worker thread, or makes a worker that is not
    /// connected when the thread could not start.
    pub fn new(link: Option<(Sender<T>, Receiver<T>)>) -> (r: Self)
        ensures
            r.connected() == (link is Some),
            r.sender() == (match link {
                Some(l) => Some(l.0),
                None => None,
            }),
            r.receiver() == (match link {
                Some(l) => Some(l.1),
                None => None,
            }),
            r.offered() == Seq::<T>::empty(),
    {
        match link {
            Some((tx, rx)) => DfWorker { tx: Some(tx), rx: Some(rx), offered: Ghost(Seq::empty()) },
            None => DfWorker { tx: None, rx: None, offered: Ghost(Seq::empty()) },
        }
    }

    /// Offers a frame without blocking; returns whether it was taken, in
    /// which case it is the next frame the worker has taken.
    pub fn submit(&mut self, frame: T) -> (r: bool)
        ensures
            !old(self).connected() ==> !r,
            r ==> final(self).offered() == old(self).offered().push(frame),
            !r ==> final(self).offered() == old(self).offered(),
            final(self).connected() == old(self).connected(),
            final(self).sender() == old(self).sender(),
            final(self).receiver() == old(self).receiver(),
    {
        proof {
            use_type_invariant(&*self);
        }
        let ghost sent = frame;
        let taken = match &self.tx {
            None => false,
            Some(tx) => channel_try_send(tx, frame).is_ok(),
        };
        if taken {
            self.offered = Ghost(self.offered@.push(sent));
        }
        taken
    }

    /// An answer of the worker, if one is waiting.
    pub fn take(&self) -> (r: Option<T>)
        ensures
            !self.connected() ==> r is None,
    {
        proof {
            use_type_invariant(self);
        }
        match &self.rx {
            None => None,
            Some(rx) => channel_try_recv(rx),
        }
    }
}

} // verus!
