use vstd::prelude::*;
use crossbeam::channel::Receiver;

verus! {

#[verifier::external_type_specification]
#[verifier::external_body]
#[verifier::reject_recursive_types(T)]
pub struct ExReceiver<T>(Receiver<T>);

/// Relies on crossbeam_channel::Receiver::len: the number of messages waiting
/// at the time of the call. Other threads may send meanwhile, so nothing is
/// stated of the value.
#[verifier::external_body]
pub(crate) fn waiting(inbox: &Receiver<usize>) -> (n: usize) {
    inbox.len()
}

/// Relies on crossbeam_channel::Receiver::try_recv: takes one waiting message
/// without blocking, or none when the channel is empty. What arrives depends on
/// other threads, so nothing is stated of it.
#[verifier::external_body]
pub(crate) fn take_waiting(inbox: &Receiver<usize>) -> (r: Option<usize>) {
    inbox.try_recv().ok()
}

} // verus!
