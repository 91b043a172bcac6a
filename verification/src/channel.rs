//! The reply channel of a permission request: the model hands it back with
//! the decided answer, and the caller sends that answer.
use futures::channel::oneshot::Sender;
use vstd::prelude::*;

verus! {

/// The sending half of a `futures` oneshot channel.
#[verifier::external_type_specification]
#[verifier::external_body]
#[verifier::reject_recursive_types(T)]
pub struct ExOneshotSender<T>(Sender<T>);

} // verus!
