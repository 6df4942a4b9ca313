//! The job queue: an unbounded multi-producer, multi-consumer channel.
use crossbeam::channel::{Receiver, RecvError, SendError, Sender};
use vstd::prelude::*;

verus! {

#[verifier::external_type_specification]
#[verifier::external_body]
#[verifier::reject_recursive_types(T)]
pub struct ExSender<T>(Sender<T>);

#[verifier::external_type_specification]
#[verifier::external_body]
#[verifier::reject_recursive_types(T)]
pub struct ExReceiver<T>(Receiver<T>);

#[verifier::external_type_specification]
#[verifier::reject_recursive_types(T)]
pub struct ExSendError<T>(SendError<T>);

#[verifier::external_type_specification]
#[verifier::external_body]
pub struct ExRecvError(RecvError);

/// Relies on crossbeam::channel::unbounded: a new channel of unbounded
/// capacity, its sending and its receiving end.
#[verifier::external_body]
fn unbounded_channel<T>() -> (Sender<T>, Receiver<T>) {
    crossbeam::channel::unbounded()
}

/// Relies on Sender::send: on failure (every receiver is gone) the error
/// carries back the message that was not sent.
#[verifier::external_body]
fn send_message<T>(tx: &Sender<T>, msg: T) -> (r: Result<(), SendError<T>>)
    ensures
        r matches Err(e) ==> e.0 == msg,
{
    tx.send(msg)
}

/// Relies on Receiver::recv: blocks until a message arrives, or fails once
/// the channel is empty and every sender is gone.
#[verifier::external_body]
fn receive_message<T>(rx: &Receiver<T>) -> Result<T, RecvError> {
    rx.recv()
}

/// Relies on Receiver's Clone: another receiving end of the same channel.
#[verifier::external_body]
fn clone_receiver<T>(rx: &Receiver<T>) -> Receiver<T> {
    rx.clone()
}

/// The submission side of a pool's queue.
///
/// It keeps a receiving end of its own, so the channel stays open for as long
/// as the queue exists, even in a pool without workers: submitting to it
/// never finds the consuming side gone.
#[verifier::reject_recursive_types(T)]
pub struct JobQueue<T> {
    tx: Sender<T>,
    rx: Receiver<T>,
}

impl<T> JobQueue<T> {
    /// An empty queue.
    pub fn new() -> (r: Self) {
        let (tx, rx) = unbounded_channel();
        JobQueue { tx, rx }
    }

    /// A receiving end for a new worker; all of them share the queue, and
    /// each job goes to exactly one of them.
    pub fn subscribe(&self) -> (r: Receiver<T>) {
        clone_receiver(&self.rx)
    }

    /// Enqueues `job` and returns at once. Where the job cannot be enqueued,
    /// it is handed back unchanged.
    pub fn submit(&self, job: T) -> (r: Result<(), T>)
        ensures
            r matches Err(j) ==> j == job,
    {
        match send_message(&self.tx, job) {
            Ok(()) => Ok(()),
            Err(e) => Err(e.0),
        }
    }
}

/// Blocks for the next job on a worker's receiving end: `None` once the queue
/// is empty and closed, which ends the worker's loop.
pub fn next_job<T>(rx: &Receiver<T>) -> (r: Option<T>) {
    match receive_message(rx) {
        Ok(job) => Some(job),
        Err(_) => None,
    }
}

} // verus!
