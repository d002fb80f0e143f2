use vstd::prelude::*;

use crate::command::Command;
use ringbuf::{Consumer, Producer};

verus! {

/// The sending half of the lock-free command queue.
#[verifier::external_type_specification]
#[verifier::external_body]
#[verifier::reject_recursive_types(T)]
pub struct ExProducer<T>(Producer<T>);

/// The receiving half of the lock-free command queue.
#[verifier::external_type_specification]
#[verifier::external_body]
#[verifier::reject_recursive_types(T)]
pub struct ExConsumer<T>(Consumer<T>);

/// Relies on `ringbuf::Producer::push`: appends the command unless the ring is
/// full. Whether it is full depends on the consumer thread, so nothing is
/// promised about the outcome.
#[verifier::external_body]
pub(crate) fn send<B, P>(queue: &mut Producer<Command<B, P>>, command: Command<B, P>) -> (sent: bool) {
    queue.push(command).is_ok()
}

/// Relies on `ringbuf::Consumer::len`: a lower bound on the number of queued
/// commands, which the producer thread may raise at any time.
#[verifier::external_body]
pub(crate) fn pending<B, P>(queue: &Consumer<Command<B, P>>) -> (n: usize) {
    queue.len()
}

/// Relies on `ringbuf::Consumer::pop`: removes the oldest queued command, or
/// returns `None` when the ring is empty.
#[verifier::external_body]
pub(crate) fn receive<B, P>(queue: &mut Consumer<Command<B, P>>) -> (r: Option<Command<B, P>>) {
    queue.pop()
}

} // verus!
